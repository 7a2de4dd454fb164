//! Text: comparing, trimming and cutting strings, and numbers in decimal.

use vstd::prelude::*;
use vstd::utf8;

verus! {

/// The characters that Unicode gives the property White_Space.
pub open spec fn is_white_space(c: char) -> bool {
    ||| '\u{9}' <= c <= '\u{d}'
    ||| c == '\u{20}'
    ||| c == '\u{85}'
    ||| c == '\u{a0}'
    ||| c == '\u{1680}'
    ||| '\u{2000}' <= c <= '\u{200a}'
    ||| c == '\u{2028}'
    ||| c == '\u{2029}'
    ||| c == '\u{202f}'
    ||| c == '\u{205f}'
    ||| c == '\u{3000}'
}

/// `s` without the characters of `set` at its two ends.
pub open spec fn trim_matches(s: Seq<char>, set: Set<char>) -> Seq<char>
    decreases s.len(),
{
    if s.len() > 0 && set.contains(s[0]) {
        trim_matches(s.skip(1), set)
    } else {
        trim_end_matches(s, set)
    }
}

/// `s` without the characters of `set` at its end.
pub open spec fn trim_end_matches(s: Seq<char>, set: Set<char>) -> Seq<char>
    decreases s.len(),
{
    if s.len() > 0 && set.contains(s.last()) {
        trim_end_matches(s.drop_last(), set)
    } else {
        s
    }
}

/// `s` without the white space at its two ends.
pub open spec fn trimmed(s: Seq<char>) -> Seq<char> {
    trim_matches(s, Set::new(|c: char| is_white_space(c)))
}

/// What `str::to_lowercase` makes of a text with characters that have no lower
/// case of ASCII alone.
pub uninterp spec fn unicode_lowercase(s: Seq<char>) -> Seq<char>;

/// An ASCII capital turned into its small letter, any other character kept.
pub open spec fn ascii_lower(c: char) -> char {
    if 'A' <= c <= 'Z' {
        (c as u32 + 32) as char
    } else {
        c
    }
}

/// A text with its ASCII capitals turned into small letters.
pub open spec fn ascii_lowered(s: Seq<char>) -> Seq<char> {
    s.map_values(|c: char| ascii_lower(c))
}

/// The characters whose lower case is ASCII alone: ASCII, and the sign of the
/// unit kelvin.
pub open spec fn is_plain(c: char) -> bool {
    c <= '\u{7f}' || c == '\u{212a}'
}

/// A text of such characters.
pub open spec fn all_plain(s: Seq<char>) -> bool {
    forall|i: int| 0 <= i < s.len() ==> is_plain(#[trigger] s[i])
}

/// The lower case of such a character.
pub open spec fn plain_lower(c: char) -> char {
    if c == '\u{212a}' {
        'k'
    } else {
        ascii_lower(c)
    }
}

/// The lower case of such a text.
pub open spec fn plain_lowered(s: Seq<char>) -> Seq<char> {
    s.map_values(|c: char| plain_lower(c))
}

/// A text in lower case.
pub open spec fn lowercase(s: Seq<char>) -> Seq<char> {
    if all_plain(s) {
        plain_lowered(s)
    } else {
        unicode_lowercase(s)
    }
}

/// Where `c` stands last in `s`.
pub open spec fn last_index_of(s: Seq<char>, c: char) -> Option<int>
    decreases s.len(),
{
    if s.len() == 0 {
        None
    } else if s.last() == c {
        Some(s.len() - 1)
    } else {
        last_index_of(s.drop_last(), c)
    }
}

/// Whether `s` ends in `suffix`.
pub open spec fn ends_with(s: Seq<char>, suffix: Seq<char>) -> bool {
    s.len() >= suffix.len() && s.skip(s.len() - suffix.len()) == suffix
}

/// An ASCII digit.
pub open spec fn is_digit(c: char) -> bool {
    '0' <= c <= '9'
}

/// A run of ASCII digits.
pub open spec fn all_digits(s: Seq<char>) -> bool {
    forall|i: int| 0 <= i < s.len() ==> is_digit(#[trigger] s[i])
}

/// The number that digits write in base ten.
pub open spec fn digits_value(s: Seq<char>) -> nat
    decreases s.len(),
{
    if s.len() == 0 {
        0
    } else {
        digits_value(s.drop_last()) * 10 + (s.last() as nat - '0' as nat) as nat
    }
}

/// The number that a decimal text writes: an optional plus sign, then at
/// least one digit and nothing else. `None` where the text is no such
/// number, or one above `max`.
pub open spec fn unsigned_of(s: Seq<char>, max: nat) -> Option<nat> {
    let digits = if s.len() > 0 && s[0] == '+' {
        s.skip(1)
    } else {
        s
    };
    if digits.len() > 0 && all_digits(digits) && digits_value(digits) <= max {
        Some(digits_value(digits))
    } else {
        None
    }
}

/// How many characters of `s` stand before the first one of `set`.
pub open spec fn first_index_of(s: Seq<char>, set: Set<char>) -> int
    decreases s.len(),
{
    if s.len() == 0 || set.contains(s[0]) {
        0
    } else {
        1 + first_index_of(s.skip(1), set)
    }
}

/// `s` without the sign at its front.
pub open spec fn without_sign(s: Seq<char>) -> Seq<char> {
    if s.len() > 0 && (s[0] == '+' || s[0] == '-') {
        s.skip(1)
    } else {
        s
    }
}

/// Digits with at most one point before, between or after them.
pub open spec fn is_mantissa(m: Seq<char>) -> bool {
    let point = first_index_of(m, set!['.']);
    if point < m.len() {
        m.len() > 1 && all_digits(m.take(point)) && all_digits(m.skip(point + 1))
    } else {
        m.len() > 0 && all_digits(m)
    }
}

/// Digits with an optional point, and an optional exponent: an `e` of either
/// case, an optional sign, and digits.
pub open spec fn is_decimal(u: Seq<char>) -> bool {
    let e = first_index_of(u, set!['e', 'E']);
    &&& is_mantissa(u.take(e))
    &&& e < u.len() ==> {
        let exponent = without_sign(u.skip(e + 1));
        exponent.len() > 0 && all_digits(exponent)
    }
}

/// The texts that are read as floating-point numbers: an optional sign, and
/// then the word for infinity, in short or in full, the word for no number,
/// in whatever case, or a decimal number.
pub open spec fn is_float(s: Seq<char>) -> bool {
    let u = without_sign(s);
    ||| ascii_lowered(u) == "inf"@
    ||| ascii_lowered(u) == "infinity"@
    ||| ascii_lowered(u) == "nan"@
    ||| is_decimal(u)
}

/// The digit of a number below ten.
pub open spec fn digit_char(d: nat) -> char {
    ('0' as nat + d) as char
}

/// The decimal text of a number.
pub open spec fn decimal(n: nat) -> Seq<char>
    decreases n,
{
    if n < 10 {
        seq![digit_char(n)]
    } else {
        decimal(n / 10).push(digit_char(n % 10))
    }
}

/// `String::push` appends one character.
pub assume_specification[ String::push ](s: &mut String, c: char)
    ensures
        final(s)@ == old(s)@.push(c),
;

/// `str::trim` drops white space at both ends.
pub assume_specification[ str::trim ](s: &str) -> (r: &str)
    ensures
        r@ == trimmed(s@),
;

/// `str::to_lowercase` maps a text by the Unicode tables. Of those, only the
/// part is spelled out that leads to ASCII: the ASCII letters and the sign of
/// the unit kelvin, and that of any other character something stays that is not
/// ASCII.
pub assume_specification[ str::to_lowercase ](s: &str) -> (r: String)
    ensures
        all_plain(s@) ==> r@ == plain_lowered(s@),
        !all_plain(s@) ==> r@ == unicode_lowercase(s@),
        !all_plain(s@) ==> !utf8::is_ascii_chars(r@),
;

/// `String::from_utf8` takes bytes for text exactly where they are valid
/// UTF-8, and the text is what they encode.
#[verifier::external_body]
pub(crate) fn string_from_utf8(v: Vec<u8>) -> (r: Option<String>)
    ensures
        match r {
            Some(s) => utf8::valid_utf8(v@) && s@ == utf8::decode_utf8(v@),
            None => !utf8::valid_utf8(v@),
        },
{
    String::from_utf8(v).ok()
}

/// The characters of a text, one by one.
pub(crate) fn chars_of(s: &str) -> (v: Vec<char>)
    ensures
        v@ == s@,
{
    let mut v: Vec<char> = Vec::new();
    for c in it: s.chars()
        invariant
            v@ =~= it.seq().take(it.index() as int),
            it.seq() == s@,
    {
        v.push(c);
    }
    assert(v@ =~= s@);
    v
}

/// The text made of the characters from `from` up to `to`.
pub(crate) fn string_of(chars: &[char], from: usize, to: usize) -> (s: String)
    requires
        from <= to <= chars@.len(),
    ensures
        s@ == chars@.subrange(from as int, to as int),
{
    let mut s = String::new();
    let mut i: usize = from;
    while i < to
        invariant
            from <= i <= to <= chars@.len(),
            s@ =~= chars@.subrange(from as int, i as int),
        decreases to - i,
    {
        s.push(chars[i]);
        i += 1;
    }
    s
}

/// Whether two runs of bytes are the same.
pub(crate) fn same_bytes(a: &[u8], b: &[u8]) -> (r: bool)
    ensures
        r == (a@ == b@),
{
    if a.len() != b.len() {
        return false;
    }
    let mut i: usize = 0;
    while i < a.len()
        invariant
            i <= a@.len(),
            a@.len() == b@.len(),
            forall|j: int| 0 <= j < i ==> a@[j] == b@[j],
        decreases a@.len() - i,
    {
        if a[i] != b[i] {
            return false;
        }
        i += 1;
    }
    assert(a@ =~= b@);
    true
}

/// Whether two texts are the same.
pub(crate) fn same_text(a: &str, b: &str) -> (r: bool)
    ensures
        r == (a@ == b@),
{
    proof {
        utf8::encode_utf8_decode_utf8(a@);
        utf8::encode_utf8_decode_utf8(b@);
    }
    same_bytes(a.as_bytes(), b.as_bytes())
}

/// Whether `chars` ends in the characters of `suffix`.
pub(crate) fn has_suffix(chars: &[char], suffix: &str) -> (r: bool)
    ensures
        r == ends_with(chars@, suffix@),
{
    let tail = chars_of(suffix);
    if chars.len() < tail.len() {
        return false;
    }
    let from = chars.len() - tail.len();
    let mut i: usize = 0;
    while i < tail.len()
        invariant
            i <= tail@.len(),
            tail@ == suffix@,
            from + tail.len() == chars.len(),
            forall|j: int| 0 <= j < i ==> chars@[from + j] == tail@[j],
        decreases tail@.len() - i,
    {
        if chars[from + i] != tail[i] {
            assert(chars@.skip(from as int)[i as int] != tail@[i as int]);
            return false;
        }
        i += 1;
    }
    assert(chars@.skip(from as int) =~= tail@);
    true
}

/// Where `c` stands last in `chars`.
pub(crate) fn find_last(chars: &[char], c: char) -> (r: Option<usize>)
    ensures
        match r {
            Some(i) => i < chars@.len() && last_index_of(chars@, c) == Some(i as int),
            None => last_index_of(chars@, c) is None,
        },
{
    let mut n: usize = chars.len();
    assert(chars@.take(n as int) =~= chars@);
    while n > 0
        invariant
            n <= chars@.len(),
            last_index_of(chars@, c) == last_index_of(chars@.take(n as int), c),
        decreases n,
    {
        assert(chars@.take(n as int).drop_last() =~= chars@.take(n - 1));
        if chars[n - 1] == c {
            return Some(n - 1);
        }
        n -= 1;
    }
    None
}

/// The number of a decimal text, where it is at most `max`.
pub(crate) fn parse_unsigned(chars: &[char], from: usize, max: u64) -> (r: Option<u64>)
    requires
        from <= chars@.len(),
    ensures
        match r {
            Some(v) => unsigned_of(chars@.skip(from as int), max as nat) == Some(v as nat),
            None => unsigned_of(chars@.skip(from as int), max as nat) is None,
        },
{
    let ghost s = chars@.skip(from as int);
    let start = if from < chars.len() && chars[from] == '+' {
        from + 1
    } else {
        from
    };
    let ghost digits = chars@.skip(start as int);
    proof {
        if s.len() > 0 && s[0] == '+' {
            assert(s.skip(1) =~= digits);
        } else {
            assert(s =~= digits);
        }
    }
    if start == chars.len() {
        return None;
    }
    let mut v: u64 = 0;
    let mut i: usize = start;
    assert(digits.take(0) =~= Seq::empty());
    while i < chars.len()
        invariant
            start <= i <= chars@.len(),
            digits == chars@.skip(start as int),
            digits.len() > 0,
            s.len() > 0 && s[0] == '+' ==> s.skip(1) == digits,
            !(s.len() > 0 && s[0] == '+') ==> s == digits,
            s == chars@.skip(from as int),
            from <= chars@.len(),
            forall|j: int| 0 <= j < i - start ==> is_digit(digits[j]),
            v == digits_value(digits.take(i - start)),
            v <= max,
        decreases chars@.len() - i,
    {
        let c = chars[i];
        assert(c == digits[i - start]);
        if c < '0' || c > '9' {
            assert(!is_digit(digits[i - start]));
            assert(!all_digits(digits));
            return None;
        }
        let d = c as u64 - '0' as u64;
        assert(digits.take(i - start + 1).drop_last() =~= digits.take(i - start));
        assert(digits_value(digits.take(i - start + 1)) == v * 10 + d);
        if v as u128 * 10 + d as u128 > max as u128 {
            proof {
                lemma_digits_prefix(digits, i - start + 1);
            }
            return None;
        }
        v = v * 10 + d;
        i += 1;
    }
    assert(digits.take(i - start) =~= digits);
    Some(v)
}

/// Where the first `a` or `b` stands from `from` on, or else `to`.
fn find_either(chars: &[char], from: usize, to: usize, a: char, b: char) -> (r: usize)
    requires
        from <= to <= chars@.len(),
    ensures
        from <= r <= to,
        r - from == first_index_of(chars@.subrange(from as int, to as int), set![a, b]),
{
    let mut i: usize = from;
    while i < to && chars[i] != a && chars[i] != b
        invariant
            from <= i <= to <= chars@.len(),
            first_index_of(chars@.subrange(from as int, to as int), set![a, b]) == i - from
                + first_index_of(chars@.subrange(i as int, to as int), set![a, b]),
        decreases to - i,
    {
        assert(chars@.subrange(i as int, to as int).skip(1) =~= chars@.subrange(i + 1, to as int));
        i += 1;
    }
    i
}

/// Whether the characters from `from` up to `to` are digits.
fn only_digits(chars: &[char], from: usize, to: usize) -> (r: bool)
    requires
        from <= to <= chars@.len(),
    ensures
        r == all_digits(chars@.subrange(from as int, to as int)),
{
    let ghost part = chars@.subrange(from as int, to as int);
    let mut i: usize = from;
    while i < to
        invariant
            from <= i <= to <= chars@.len(),
            part == chars@.subrange(from as int, to as int),
            forall|j: int| 0 <= j < i - from ==> is_digit(#[trigger] part[j]),
        decreases to - i,
    {
        assert(part[i - from] == chars@[i as int]);
        if chars[i] < '0' || chars[i] > '9' {
            return false;
        }
        i += 1;
    }
    true
}

/// Where the characters from `from` on go on after a sign.
fn after_sign(chars: &[char], from: usize) -> (r: usize)
    requires
        from <= chars@.len(),
    ensures
        from <= r <= chars@.len(),
        chars@.skip(r as int) == without_sign(chars@.skip(from as int)),
{
    if from < chars.len() && (chars[from] == '+' || chars[from] == '-') {
        assert(chars@.skip(from as int).skip(1) =~= chars@.skip(from + 1));
        from + 1
    } else {
        from
    }
}

/// Whether the characters from `from` on are a word, in whatever case.
fn is_word(chars: &[char], from: usize, word: &str) -> (r: bool)
    requires
        from <= chars@.len(),
    ensures
        r == (ascii_lowered(chars@.skip(from as int)) == word@),
{
    let mut lower = String::new();
    let mut i: usize = from;
    while i < chars.len()
        invariant
            from <= i <= chars@.len(),
            lower@ =~= ascii_lowered(chars@.subrange(from as int, i as int)),
        decreases chars@.len() - i,
    {
        let c = chars[i];
        let l = if 'A' <= c && c <= 'Z' {
            (c as u8 + 32) as char
        } else {
            c
        };
        assert(l == ascii_lower(c));
        lower.push(l);
        i += 1;
    }
    assert(chars@.subrange(from as int, i as int) =~= chars@.skip(from as int));
    same_text(lower.as_str(), word)
}

/// Whether a text is read as a floating-point number.
pub(crate) fn is_float_text(chars: &[char]) -> (r: bool)
    ensures
        r == is_float(chars@),
{
    assert(chars@.skip(0) =~= chars@);
    let start = after_sign(chars, 0);
    if is_word(chars, start, "inf") || is_word(chars, start, "infinity") || is_word(
        chars,
        start,
        "nan",
    ) {
        return true;
    }
    let len = chars.len();
    let ghost u = chars@.skip(start as int);
    assert(chars@.subrange(start as int, len as int) =~= u);
    let e = find_either(chars, start, len, 'e', 'E');
    let point = find_either(chars, start, e, '.', '.');
    proof {
        let m = chars@.subrange(start as int, e as int);
        assert(m =~= u.take(e - start));
        assert(set!['.', '.'] =~= set!['.']);
        assert(m.take(point - start) =~= chars@.subrange(start as int, point as int));
        if point < e {
            assert(m.skip(point - start + 1) =~= chars@.subrange(point + 1, e as int));
        }
    }
    if point < e {
        if e - start <= 1 || !only_digits(chars, start, point) || !only_digits(
            chars,
            point + 1,
            e,
        ) {
            return false;
        }
    } else if e == start || !only_digits(chars, start, e) {
        return false;
    }
    if e < len {
        assert(u.skip(e - start + 1) =~= chars@.skip(e + 1));
        let digits = after_sign(chars, e + 1);
        assert(chars@.subrange(digits as int, len as int) =~= chars@.skip(digits as int));
        digits < len && only_digits(chars, digits, len)
    } else {
        true
    }
}

/// Cutting digits off the end makes a number no larger.
proof fn lemma_digits_prefix(s: Seq<char>, n: int)
    requires
        0 <= n <= s.len(),
    ensures
        digits_value(s.take(n)) <= digits_value(s),
    decreases s.len() - n,
{
    if n < s.len() {
        lemma_digits_prefix(s, n + 1);
        assert(s.take(n + 1).drop_last() =~= s.take(n));
    } else {
        assert(s.take(n) =~= s);
    }
}

/// Appends the decimal text of `n`.
pub(crate) fn push_decimal(out: &mut String, n: u64)
    ensures
        final(out)@ == old(out)@ + decimal(n as nat),
    decreases n,
{
    if n >= 10 {
        push_decimal(out, n / 10);
    }
    let c = (48 + (n % 10) as u8) as char;
    assert(c == digit_char((n % 10) as nat));
    out.push(c);
    proof {
        assert(out@ =~= old(out)@ + decimal(n as nat));
    }
}

/// The decimal text of a number is at least one digit, and reads back as
/// the number.
pub proof fn lemma_decimal(n: nat, max: nat)
    requires
        n <= max,
    ensures
        decimal(n).len() > 0,
        all_digits(decimal(n)),
        digits_value(decimal(n)) == n,
        unsigned_of(decimal(n), max) == Some(n),
        n < 10 ==> decimal(n).len() == 1,
        n < 100_000 ==> decimal(n).len() <= 5,
{
    lemma_decimal_digits(n);
    assert(decimal(n)[0] != '+') by {
        assert(is_digit(decimal(n)[0]));
    }
    reveal_with_fuel(decimal, 6);
}

proof fn lemma_decimal_digits(n: nat)
    ensures
        decimal(n).len() > 0,
        all_digits(decimal(n)),
        digits_value(decimal(n)) == n,
    decreases n,
{
    if n < 10 {
        assert(decimal(n).drop_last() =~= Seq::empty());
        assert(digits_value(Seq::<char>::empty()) == 0);
    } else {
        lemma_decimal_digits(n / 10);
        assert(decimal(n).drop_last() =~= decimal(n / 10));
    }
}

/// A text of white space alone.
pub open spec fn all_white_space(s: Seq<char>) -> bool {
    forall|i: int| 0 <= i < s.len() ==> is_white_space(#[trigger] s[i])
}

/// Digits have no character in front of a set without digits.
pub proof fn lemma_digits_are_no_others(s: Seq<char>, set: Set<char>)
    requires
        all_digits(s),
        forall|c: char| #[trigger] set.contains(c) ==> !is_digit(c),
    ensures
        first_index_of(s, set) == s.len(),
    decreases s.len(),
{
    if s.len() > 0 {
        assert(is_digit(s[0]));
        assert(all_digits(s.skip(1)));
        lemma_digits_are_no_others(s.skip(1), set);
    }
}

/// A whole number is a floating-point number.
pub proof fn lemma_unsigned_is_float(s: Seq<char>, max: nat)
    requires
        unsigned_of(s, max) is Some,
    ensures
        is_float(s),
{
    let digits = if s.len() > 0 && s[0] == '+' {
        s.skip(1)
    } else {
        s
    };
    assert(is_digit(digits[0]));
    assert(without_sign(s) == digits);
    lemma_digits_are_no_others(digits, set!['e', 'E']);
    lemma_digits_are_no_others(digits, set!['.']);
    assert(digits.take(digits.len() as int) =~= digits);
}

/// Characters of the set in front of a text are trimmed away.
pub proof fn lemma_trim_front(w: Seq<char>, s: Seq<char>, set: Set<char>)
    requires
        forall|i: int| 0 <= i < w.len() ==> set.contains(#[trigger] w[i]),
    ensures
        trim_matches(w + s, set) == trim_matches(s, set),
    decreases w.len(),
{
    if w.len() == 0 {
        assert(w + s =~= s);
    } else {
        assert(set.contains(w[0]));
        assert((w + s).skip(1) =~= w.skip(1) + s);
        lemma_trim_front(w.skip(1), s, set);
    }
}

/// Characters of the set behind a text are trimmed away.
proof fn lemma_trim_end(s: Seq<char>, w: Seq<char>, set: Set<char>)
    requires
        forall|i: int| 0 <= i < w.len() ==> set.contains(#[trigger] w[i]),
    ensures
        trim_end_matches(s + w, set) == trim_end_matches(s, set),
    decreases w.len(),
{
    if w.len() == 0 {
        assert(s + w =~= s);
    } else {
        assert(set.contains(w.last()));
        assert((s + w).drop_last() =~= s + w.drop_last());
        lemma_trim_end(s, w.drop_last(), set);
    }
}

/// Characters of the set behind a text are trimmed away at that end too.
pub proof fn lemma_trim_back(s: Seq<char>, w: Seq<char>, set: Set<char>)
    requires
        forall|i: int| 0 <= i < w.len() ==> set.contains(#[trigger] w[i]),
    ensures
        trim_matches(s + w, set) == trim_matches(s, set),
    decreases s.len(),
{
    if s.len() == 0 {
        let none = Seq::<char>::empty();
        assert(s =~= none);
        assert(s + w =~= w + none);
        lemma_trim_front(w, none, set);
    } else if set.contains(s[0]) {
        assert((s + w).skip(1) =~= s.skip(1) + w);
        lemma_trim_back(s.skip(1), w, set);
    } else {
        assert((s + w)[0] == s[0]);
        lemma_trim_end(s, w, set);
    }
}

/// White space around a text is trimmed away.
pub proof fn lemma_trimmed_around(w1: Seq<char>, s: Seq<char>, w2: Seq<char>)
    requires
        all_white_space(w1),
        all_white_space(w2),
    ensures
        trimmed(w1 + s + w2) == trimmed(s),
{
    let white = Set::new(|c: char| is_white_space(c));
    lemma_trim_back(w1 + s, w2, white);
    lemma_trim_front(w1, s, white);
}

/// A text that starts and ends with something else than white space stays as
/// it is.
pub proof fn lemma_trimmed_same(s: Seq<char>)
    requires
        s.len() > 0,
        !is_white_space(s[0]),
        !is_white_space(s.last()),
    ensures
        trimmed(s) == s,
{
}

/// Lower case and trimming do not get in each other's way.
pub proof fn lemma_trimmed_lowered(s: Seq<char>)
    ensures
        ascii_lowered(trimmed(s)) == trimmed(ascii_lowered(s)),
    decreases s.len(),
{
    let l = ascii_lowered(s);
    if s.len() > 0 && is_white_space(s[0]) {
        lemma_trimmed_lowered(s.skip(1));
        assert(l.skip(1) =~= ascii_lowered(s.skip(1)));
        assert(l[0] == s[0]);
    } else {
        lemma_trim_end_lowered(s);
        if s.len() > 0 {
            assert(l[0] == ascii_lower(s[0]));
        }
    }
}

proof fn lemma_trim_end_lowered(s: Seq<char>)
    ensures
        ({
            let white = Set::new(|c: char| is_white_space(c));
            ascii_lowered(trim_end_matches(s, white)) == trim_end_matches(ascii_lowered(s), white)
        }),
    decreases s.len(),
{
    let l = ascii_lowered(s);
    if s.len() > 0 {
        assert(l.last() == ascii_lower(s.last()));
        if is_white_space(s.last()) {
            lemma_trim_end_lowered(s.drop_last());
            assert(l.drop_last() =~= ascii_lowered(s.drop_last()));
        }
    }
}

/// A character of the set stands where the first one does.
proof fn lemma_first_index(s: Seq<char>, set: Set<char>)
    ensures
        0 <= first_index_of(s, set) <= s.len(),
        first_index_of(s, set) < s.len() ==> set.contains(s[first_index_of(s, set)]),
    decreases s.len(),
{
    if s.len() > 0 && !set.contains(s[0]) {
        lemma_first_index(s.skip(1), set);
    }
}

/// A word that is ASCII in lower case is ASCII.
proof fn lemma_word_is_ascii(u: Seq<char>)
    requires
        utf8::is_ascii_chars(ascii_lowered(u)),
    ensures
        utf8::is_ascii_chars(u),
{
    assert forall|i: int| 0 <= i < u.len() implies '\0' <= #[trigger] u[i] <= '\u{7f}' by {
        assert(ascii_lowered(u)[i] <= '\u{7f}');
        assert(ascii_lowered(u)[i] == ascii_lower(u[i]));
    }
}

/// A floating-point number is written in ASCII.
pub proof fn lemma_float_is_ascii(s: Seq<char>)
    requires
        is_float(s),
    ensures
        utf8::is_ascii_chars(s),
{
    let u = without_sign(s);
    if is_decimal(u) {
        let e = first_index_of(u, set!['e', 'E']);
        lemma_first_index(u, set!['e', 'E']);
        let m = u.take(e);
        let point = first_index_of(m, set!['.']);
        lemma_first_index(m, set!['.']);
        assert forall|i: int| 0 <= i < u.len() implies '\0' <= #[trigger] u[i] <= '\u{7f}' by {
            if i < e {
                assert(u[i] == m[i]);
                if point < m.len() {
                    if i < point {
                        assert(is_digit(m.take(point)[i]));
                    } else if i > point {
                        assert(is_digit(m.skip(point + 1)[i - point - 1]));
                    }
                } else {
                    assert(is_digit(m[i]));
                }
            } else if i > e {
                let x = u.skip(e + 1);
                assert(u[i] == x[i - e - 1]);
                if without_sign(x) == x {
                    assert(is_digit(x[i - e - 1]));
                } else if i > e + 1 {
                    assert(is_digit(x.skip(1)[i - e - 2]));
                }
            }
        }
    } else {
        reveal_strlit("inf");
        reveal_strlit("infinity");
        reveal_strlit("nan");
        lemma_word_is_ascii(u);
    }
    assert forall|i: int| 0 <= i < s.len() implies '\0' <= #[trigger] s[i] <= '\u{7f}' by {
        if u != s && i > 0 {
            assert(s[i] == u[i - 1]);
        }
    }
}

/// A whole number is written in ASCII.
pub proof fn lemma_unsigned_is_ascii(s: Seq<char>, max: nat)
    requires
        unsigned_of(s, max) is Some,
    ensures
        utf8::is_ascii_chars(s),
{
    lemma_unsigned_is_float(s, max);
    lemma_float_is_ascii(s);
}

/// The decimal text of a number: its digits, most significant first, without
/// zeros in front.
pub proof fn law_decimal_digits(n: nat, d: nat)
    requires
        d < 10,
    ensures
        decimal(d) == seq![(0x30 + d) as char],
        n > 0 ==> decimal(10 * n + d) == decimal(n).push((0x30 + d) as char),
{
    assert((10 * n + d) / 10 == n);
    assert((10 * n + d) % 10 == d);
}

/// A text is a whole number exactly where it is digits, one or more, with at
/// most a plus in front, and where what they count is not too much.
pub proof fn law_whole_numbers(digits: Seq<char>, max: nat)
    ensures
        digits.len() > 0 && digits[0] != '+' ==> {
            &&& unsigned_of(digits, max) is Some <==> {
                &&& forall|i: int| 0 <= i < digits.len() ==> '0' <= (#[trigger] digits[i]) <= '9'
                &&& digits_value(digits) <= max
            }
            &&& unsigned_of(digits, max) is Some ==> unsigned_of(digits, max) == Some(
                digits_value(digits),
            )
            &&& unsigned_of(seq!['+'] + digits, max) == unsigned_of(digits, max)
        },
        unsigned_of(Seq::<char>::empty(), max) is None,
        unsigned_of(seq!['+'], max) is None,
        unsigned_of(seq!['+', '+'] + digits, max) is None,
{
    if digits.len() > 0 {
        assert((seq!['+'] + digits).skip(1) =~= digits);
        if forall|i: int| 0 <= i < digits.len() ==> '0' <= (#[trigger] digits[i]) <= '9' {
            assert(all_digits(digits)) by {
                assert forall|i: int| 0 <= i < digits.len() implies is_digit(
                    #[trigger] digits[i],
                ) by {
                    assert('0' <= digits[i] <= '9');
                }
            }
        }
        if all_digits(digits) {
            assert forall|i: int| 0 <= i < digits.len() implies '0' <= (#[trigger] digits[i])
                <= '9' by {
                assert(is_digit(digits[i]));
            }
        }
    }
    assert(seq!['+'].skip(1) =~= Seq::empty());
    let two = (seq!['+', '+'] + digits).skip(1);
    assert(!is_digit(two[0]));
}

/// Digits count in tens.
pub proof fn law_digits_count_in_tens(digits: Seq<char>, d: nat)
    requires
        d < 10,
    ensures
        digits_value(Seq::<char>::empty()) == 0,
        digits_value(digits.push((0x30 + d) as char)) == 10 * digits_value(digits) + d,
{
    assert(digits.push((0x30 + d) as char).drop_last() =~= digits);
}

/// Trimming takes away the white space at the two ends and nothing else.
pub proof fn law_trimming(s: Seq<char>)
    ensures
        exists|a: Seq<char>, b: Seq<char>|
            {
                &&& s == #[trigger] (a + trimmed(s) + b)
                &&& all_white_space(a)
                &&& all_white_space(b)
            },
        trimmed(s).len() > 0 ==> !is_white_space(trimmed(s)[0]) && !is_white_space(
            trimmed(s).last(),
        ),
{
    let (a, b) = lemma_trim_splits(s, Set::new(|c: char| is_white_space(c)));
    assert(s == a + trimmed(s) + b);
}

/// What trimming takes away, at the front and at the end.
proof fn lemma_trim_splits(s: Seq<char>, set: Set<char>) -> (r: (Seq<char>, Seq<char>))
    ensures
        s == r.0 + trim_matches(s, set) + r.1,
        forall|i: int| 0 <= i < r.0.len() ==> set.contains(#[trigger] r.0[i]),
        forall|i: int| 0 <= i < r.1.len() ==> set.contains(#[trigger] r.1[i]),
        trim_matches(s, set).len() > 0 ==> !set.contains(trim_matches(s, set)[0])
            && !set.contains(trim_matches(s, set).last()),
    decreases s.len(),
{
    if s.len() > 0 && set.contains(s[0]) {
        let (a, b) = lemma_trim_splits(s.skip(1), set);
        let t = trim_matches(s.skip(1), set);
        assert(s =~= seq![s[0]] + s.skip(1));
        assert(seq![s[0]] + (a + t + b) =~= (seq![s[0]] + a) + t + b);
        (seq![s[0]] + a, b)
    } else {
        let b = lemma_trim_end_splits(s, set);
        let t = trim_end_matches(s, set);
        assert(s =~= Seq::<char>::empty() + t + b);
        (Seq::empty(), b)
    }
}

/// What trimming the end takes away.
proof fn lemma_trim_end_splits(s: Seq<char>, set: Set<char>) -> (b: Seq<char>)
    ensures
        s == trim_end_matches(s, set) + b,
        forall|i: int| 0 <= i < b.len() ==> set.contains(#[trigger] b[i]),
        trim_end_matches(s, set).len() > 0 ==> !set.contains(trim_end_matches(s, set).last()),
    decreases s.len(),
{
    if s.len() > 0 && set.contains(s.last()) {
        let b = lemma_trim_end_splits(s.drop_last(), set);
        let t = trim_end_matches(s.drop_last(), set);
        assert(s =~= s.drop_last().push(s.last()));
        assert((t + b).push(s.last()) =~= t + b.push(s.last()));
        b.push(s.last())
    } else {
        assert(s =~= s + Seq::<char>::empty());
        Seq::empty()
    }
}

/// What white space is, by number.
pub proof fn law_white_space(c: char)
    ensures
        is_white_space(c) <==> {
            let n = c as nat;
            9 <= n <= 13 || n == 32 || n == 0x85 || n == 0xa0 || n == 0x1680 || 0x2000 <= n
                <= 0x200a || n == 0x2028 || n == 0x2029 || n == 0x202f || n == 0x205f || n == 0x3000
        },
{
}

/// Lower case goes character by character: the 26 capitals of ASCII have their
/// small letters, the sign of the unit kelvin has a k, and any other character
/// whose lower case is ASCII has itself.
pub proof fn law_lower_case(s: Seq<char>, i: int)
    requires
        0 <= i < s.len(),
    ensures
        ascii_lowered(s).len() == s.len(),
        ascii_lowered(s)[i] as nat == if 65 <= s[i] as nat <= 90 {
            s[i] as nat + 32
        } else {
            s[i] as nat
        },
        all_plain(s) ==> {
            &&& s[i] as nat <= 127 || s[i] as nat == 0x212a
            &&& lowercase(s).len() == s.len()
            &&& lowercase(s)[i] as nat == if s[i] as nat == 0x212a {
                107
            } else if 65 <= s[i] as nat <= 90 {
                s[i] as nat + 32
            } else {
                s[i] as nat
            }
        },
        (forall|j: int|
            0 <= j < s.len() ==> (#[trigger] s[j]) <= '\u{7f}' || s[j] == '\u{212a}')
            ==> all_plain(s),
        !all_plain(s) ==> lowercase(s) == unicode_lowercase(s),
{
    if all_plain(s) {
        assert(is_plain(s[i]));
    }
}

/// The first of a set stands behind a text without any.
proof fn lemma_first_index_behind(x: Seq<char>, y: Seq<char>, set: Set<char>)
    requires
        forall|i: int| 0 <= i < x.len() ==> !set.contains(#[trigger] x[i]),
        y.len() == 0 || set.contains(y[0]),
    ensures
        first_index_of(x + y, set) == x.len(),
    decreases x.len(),
{
    if x.len() == 0 {
        assert(x + y =~= y);
    } else {
        assert(!set.contains(x[0]));
        assert((x + y)[0] == x[0]);
        assert((x + y).skip(1) =~= x.skip(1) + y);
        lemma_first_index_behind(x.skip(1), y, set);
    }
}

/// A sign, or none.
pub open spec fn is_sign(s: Seq<char>) -> bool {
    s == Seq::<char>::empty() || s == seq!['+'] || s == seq!['-']
}

/// An exponent, or none.
pub open spec fn is_exponent(s: Seq<char>) -> bool {
    s.len() > 0 ==> (s[0] == 'e' || s[0] == 'E') && exists|sign: Seq<char>, d: Seq<char>|
        is_sign(sign) && d.len() > 0 && all_digits(d) && s.skip(1) == #[trigger] (sign + d)
}

/// Digits before and after a point, at least one of them, with a sign before
/// and an exponent behind them, are a floating-point number; the point may be
/// left out where no digits follow it.
pub proof fn law_decimal_numbers_are_floats(
    sign: Seq<char>,
    a: Seq<char>,
    point: bool,
    b: Seq<char>,
    exponent: Seq<char>,
)
    requires
        is_sign(sign),
        all_digits(a),
        all_digits(b),
        a.len() + b.len() > 0,
        !point ==> b.len() == 0,
        is_exponent(exponent),
    ensures
        is_float(
            sign + a + (if point {
                seq!['.']
            } else {
                Seq::empty()
            }) + b + exponent,
        ),
{
    let p = if point {
        seq!['.']
    } else {
        Seq::empty()
    };
    let m = a + p + b;
    let u = m + exponent;
    let s = sign + a + p + b + exponent;
    assert forall|i: int| 0 <= i < m.len() implies (m[i] == '.' || is_digit(#[trigger] m[i])) by {
        if i < a.len() {
            assert(is_digit(a[i]));
        } else if point && i > a.len() {
            assert(is_digit(b[i - a.len() - 1]));
        }
    }
    assert(s =~= sign + u);
    assert(without_sign(s) =~= u) by {
        assert(m[0] == '.' || is_digit(m[0]));
        assert(u[0] == m[0]);
        if sign.len() > 0 {
            assert(s.skip(1) =~= u);
        } else {
            assert(s =~= u);
        }
    }
    assert forall|i: int| 0 <= i < m.len() implies !set!['e', 'E'].contains(#[trigger] m[i]) by {
        assert(m[i] == '.' || is_digit(m[i]));
    }
    lemma_first_index_behind(m, exponent, set!['e', 'E']);
    assert(u.take(m.len() as int) =~= m);
    assert forall|i: int| 0 <= i < a.len() implies !set!['.'].contains(#[trigger] a[i]) by {
        assert(is_digit(a[i]));
    }
    assert(m =~= a + (p + b));
    lemma_first_index_behind(a, p + b, set!['.']);
    if point {
        assert(m.take(a.len() as int) =~= a);
        assert(m.skip(a.len() as int + 1) =~= b);
    } else {
        assert(m =~= a);
    }
    if exponent.len() > 0 {
        let (es, d) = choose|es: Seq<char>, d: Seq<char>|
            is_sign(es) && d.len() > 0 && all_digits(d) && exponent.skip(1) == #[trigger] (es + d);
        assert(u.skip(m.len() as int + 1) =~= exponent.skip(1));
        assert(is_digit(d[0]));
        assert(without_sign(es + d) =~= d) by {
            if es.len() > 0 {
                assert((es + d).skip(1) =~= d);
            } else {
                assert(es + d =~= d);
            }
        }
    }
}

/// A floating-point number is a sign and a word for infinity or no number, or
/// it is digits before and after a point, at least one of them, with a sign
/// before and an exponent behind them.
pub proof fn law_floats_are_words_or_decimal_numbers(s: Seq<char>)
    requires
        is_float(s),
    ensures
        exists|sign: Seq<char>, rest: Seq<char>|
            {
                &&& s == #[trigger] (sign + rest)
                &&& is_sign(sign)
                &&& {
                    ||| ascii_lowered(rest) == "inf"@
                    ||| ascii_lowered(rest) == "infinity"@
                    ||| ascii_lowered(rest) == "nan"@
                    ||| exists|a: Seq<char>, b: Seq<char>, exponent: Seq<char>|
                        {
                            &&& all_digits(a)
                            &&& all_digits(b)
                            &&& a.len() + b.len() > 0
                            &&& is_exponent(exponent)
                            &&& {
                                ||| rest == #[trigger] (a + seq!['.'] + b + exponent)
                                ||| b.len() == 0 && rest == a + exponent
                            }
                        }
                }
            },
{
    let u = without_sign(s);
    let sign = s.take(s.len() - u.len());
    assert(s =~= sign + u);
    assert(is_sign(sign)) by {
        if sign.len() > 0 {
            assert(sign =~= seq![s[0]]);
        } else {
            assert(sign =~= Seq::empty());
        }
    }
    if is_decimal(u) {
        let e = first_index_of(u, set!['e', 'E']);
        lemma_first_index(u, set!['e', 'E']);
        let m = u.take(e);
        let exponent = u.skip(e);
        let p = first_index_of(m, set!['.']);
        lemma_first_index(m, set!['.']);
        assert(is_exponent(exponent)) by {
            if exponent.len() > 0 {
                assert(exponent[0] == u[e]);
                assert(set!['e', 'E'].contains(u[e]));
                let x = exponent.skip(1);
                assert(x =~= u.skip(e + 1));
                let d = without_sign(x);
                let es = x.take(x.len() - d.len());
                assert(x =~= es + d);
                if es.len() > 0 {
                    assert(es =~= seq![x[0]]);
                } else {
                    assert(es =~= Seq::empty());
                }
            }
        }
        if p < m.len() {
            let a = m.take(p);
            let b = m.skip(p + 1);
            assert(u =~= a + seq!['.'] + b + exponent);
        } else {
            let b = Seq::<char>::empty();
            assert(all_digits(b));
            assert(u =~= m + exponent);
            let trigger = m + seq!['.'] + b + exponent;
            assert(all_digits(m));
        }
    }
}

/// A text ends in another exactly where it is something and then the other.
pub proof fn law_ends(front: Seq<char>, suffix: Seq<char>, s: Seq<char>)
    ensures
        ends_with(front + suffix, suffix),
        ends_with(s, suffix) ==> s == s.take(s.len() - suffix.len()) + suffix,
{
    assert((front + suffix).skip(front.len() as int) =~= suffix);
    if ends_with(s, suffix) {
        assert(s =~= s.take(s.len() - suffix.len()) + s.skip(s.len() - suffix.len()));
    }
}

/// Digits are the ten of ASCII.
pub proof fn law_digits(s: Seq<char>)
    ensures
        all_digits(s) <==> forall|i: int| 0 <= i < s.len() ==> '0' <= (#[trigger] s[i]) <= '9',
{
    if all_digits(s) {
        assert forall|i: int| 0 <= i < s.len() implies '0' <= (#[trigger] s[i]) <= '9' by {
            assert(is_digit(s[i]));
        }
    } else {
        let i = choose|i: int| 0 <= i < s.len() && !is_digit(#[trigger] s[i]);
        assert(!('0' <= s[i] <= '9'));
    }
}

/// The words for infinity and for no number are floating-point numbers, in
/// whatever case and with a sign or without.
pub proof fn law_words_are_floats(sign: Seq<char>, word: Seq<char>)
    requires
        is_sign(sign),
        ascii_lowered(word) == "inf"@ || ascii_lowered(word) == "infinity"@ || ascii_lowered(word)
            == "nan"@,
    ensures
        is_float(sign + word),
{
    reveal_strlit("inf");
    reveal_strlit("infinity");
    reveal_strlit("nan");
    let s = sign + word;
    assert(ascii_lowered(word).len() == word.len());
    assert(ascii_lowered(word)[0] == ascii_lower(word[0]));
    assert(ascii_lowered(word)[0] == 'i' || ascii_lowered(word)[0] == 'n');
    if sign.len() > 0 {
        assert(s.skip(1) =~= word);
    } else {
        assert(s =~= word);
    }
}

} // verus!
