//! Small text operations: characters, searching, decimal numbers.

use vstd::prelude::*;
use vstd::string::*;

verus! {

/// `String::push` appends one character.
pub assume_specification[ String::push ](s: &mut String, c: char)
    ensures
        final(s)@ == old(s)@.push(c),
;

/// The characters of a string, one by one.
pub fn chars_of(s: &str) -> (r: Vec<char>)
    ensures
        r@ == s@,
{
    let mut r: Vec<char> = Vec::new();
    for c in it: s.chars()
        invariant
            r.len() == it.index(),
            it.seq() == s@,
            forall|i: int| 0 <= i < r.len() ==> r@[i] == it.seq()[i],
    {
        r.push(c);
    }
    assert(r@ =~= s@);
    r
}

/// The string made of these characters.
pub fn string_of(cs: &[char]) -> (r: String)
    ensures
        r@ == cs@,
{
    let mut r = String::new();
    let mut i: usize = 0;
    while i < cs.len()
        invariant
            i <= cs.len(),
            r@ == cs@.take(i as int),
        decreases cs.len() - i,
    {
        r.push(cs[i]);
        i += 1;
        assert(cs@.take(i as int) =~= cs@.take(i - 1).push(cs@[i - 1]));
    }
    assert(cs@.take(i as int) =~= cs@);
    r
}

/// `needle` stands in `hay` as a run of characters starting at index `at`.
pub open spec fn occurs_at(hay: Seq<char>, needle: Seq<char>, at: int) -> bool {
    &&& 0 <= at
    &&& at + needle.len() <= hay.len()
    &&& hay.subrange(at, at + needle.len()) == needle
}

/// `needle` is a substring of `hay`.
pub open spec fn is_substring(hay: Seq<char>, needle: Seq<char>) -> bool {
    exists|at: int| occurs_at(hay, needle, at)
}

fn matches_at(hay: &[char], needle: &[char], at: usize) -> (r: bool)
    requires
        at + needle.len() <= hay.len(),
    ensures
        r == occurs_at(hay@, needle@, at as int),
{
    let mut j: usize = 0;
    while j < needle.len()
        invariant
            j <= needle.len(),
            at + needle.len() <= hay.len(),
            forall|k: int| 0 <= k < j ==> hay@[at + k] == needle@[k],
        decreases needle.len() - j,
    {
        if hay[at + j] != needle[j] {
            assert(hay@.subrange(at as int, at + needle.len())[j as int] != needle@[j as int]);
            return false;
        }
        j += 1;
    }
    assert(hay@.subrange(at as int, at + needle.len()) =~= needle@);
    true
}

/// Whether `needle` is a substring of `hay`.
pub fn contains_text(hay: &str, needle: &str) -> (r: bool)
    ensures
        r == is_substring(hay@, needle@),
{
    let h = chars_of(hay);
    let n = chars_of(needle);
    if n.len() > h.len() {
        return false;
    }
    let last: usize = h.len() - n.len();
    let mut at: usize = 0;
    while at <= last
        invariant
            h@ == hay@,
            n@ == needle@,
            last == h.len() - n.len(),
            at <= last + 1,
            forall|k: int| 0 <= k < at ==> !occurs_at(h@, n@, k),
        decreases last + 1 - at,
    {
        if matches_at(h.as_slice(), n.as_slice(), at) {
            return true;
        }
        if at == last {
            return false;
        }
        at += 1;
    }
    false
}

/// The position of the first `c` in `s`, or the length of `s`.
pub open spec fn find_char(s: Seq<char>, c: char) -> nat
    decreases s.len(),
{
    if s.len() == 0 || s[0] == c {
        0
    } else {
        1 + find_char(s.drop_first(), c)
    }
}

/// Before the first `c` there is none; at it there is one.
pub proof fn lemma_find_char(s: Seq<char>, c: char)
    ensures
        find_char(s, c) <= s.len(),
        find_char(s, c) < s.len() ==> s[find_char(s, c) as int] == c,
        forall|i: int| 0 <= i < find_char(s, c) ==> #[trigger] s[i] != c,
    decreases s.len(),
{
    if s.len() > 0 && s[0] != c {
        let t = s.drop_first();
        lemma_find_char(t, c);
        assert forall|i: int| 0 <= i < find_char(s, c) implies #[trigger] s[i] != c by {
            if i > 0 {
                assert(t[i - 1] != c);
            }
        }
    }
}

/// A position with no `c` before it and a `c` at it (or the end) is the first.
pub proof fn lemma_find_char_unique(s: Seq<char>, c: char, p: int)
    requires
        0 <= p <= s.len(),
        forall|i: int| 0 <= i < p ==> #[trigger] s[i] != c,
        p < s.len() ==> s[p] == c,
    ensures
        find_char(s, c) == p,
{
    lemma_find_char(s, c);
    let f = find_char(s, c) as int;
    if f < p {
        assert(s[f] != c);
    } else if p < f {
        assert(s[p] != c);
    }
}

/// The parts of `s` between the separators `c`; there is always at least one.
pub open spec fn split(s: Seq<char>, c: char) -> Seq<Seq<char>>
    decreases s.len(),
{
    let p = find_char(s, c) as int;
    if p < s.len() {
        seq![s.take(p)] + split(s.skip(p + 1), c)
    } else {
        seq![s]
    }
}

/// The position of the first `c` in `s` from `from` on, or the length of `s`.
fn find_from(s: &[char], c: char, from: usize) -> (p: usize)
    requires
        from <= s.len(),
    ensures
        from <= p <= s.len(),
        find_char(s@.skip(from as int), c) == p - from,
{
    let mut p: usize = from;
    while p < s.len() && s[p] != c
        invariant
            from <= p <= s.len(),
            forall|i: int| from <= i < p ==> #[trigger] s@[i] != c,
        decreases s.len() - p,
    {
        p += 1;
    }
    proof {
        let t = s@.skip(from as int);
        assert forall|i: int| 0 <= i < p - from implies #[trigger] t[i] != c by {
            assert(s@[from + i] != c);
        }
        lemma_find_char_unique(t, c, p - from);
    }
    p
}

/// The parts of `s` between the separators `c`.
pub fn split_text(s: &str, c: char) -> (r: Vec<String>)
    ensures
        r.len() == split(s@, c).len(),
        forall|i: int| 0 <= i < r.len() ==> (#[trigger] r@[i])@ == split(s@, c)[i],
{
    let cs = chars_of(s);
    let mut r: Vec<String> = Vec::new();
    let mut from: usize = 0;
    assert(cs@.skip(0) =~= cs@);
    loop
        invariant
            cs@ == s@,
            from <= cs.len(),
            r.len() + split(cs@.skip(from as int), c).len() == split(s@, c).len(),
            forall|i: int| 0 <= i < r.len() ==> (#[trigger] r@[i])@ == split(s@, c)[i],
            forall|i: int|
                0 <= i < split(cs@.skip(from as int), c).len() ==> #[trigger] split(
                    cs@.skip(from as int),
                    c,
                )[i] == split(s@, c)[r.len() + i],
        decreases cs.len() - from,
    {
        let ghost rest = cs@.skip(from as int);
        let ghost whole = split(s@, c);
        let p = find_from(cs.as_slice(), c, from);
        let part = string_of(slice_of(cs.as_slice(), from, p).as_slice());
        let ghost done = r@;
        assert(part@ =~= rest.take(p - from));
        assert(split(rest, c)[0] == whole[done.len() as int]);
        r.push(part);
        if p == cs.len() {
            assert(rest.take(p - from) =~= rest);
            return r;
        }
        proof {
            let tail = split(rest.skip(p - from + 1), c);
            assert(rest.skip(p - from + 1) =~= cs@.skip(p + 1));
            assert(split(rest, c) == seq![rest.take(p - from)] + tail);
            assert forall|i: int| 0 <= i < tail.len() implies #[trigger] tail[i] == whole[r.len()
                + i] by {
                assert(tail[i] == split(rest, c)[i + 1]);
                assert(split(rest, c)[i + 1] == whole[done.len() + i + 1]);
            }
        }
        from = p + 1;
    }
}

/// A copy of the characters of `s` from `a` up to `b`.
pub fn slice_of(s: &[char], a: usize, b: usize) -> (r: Vec<char>)
    requires
        a <= b <= s.len(),
    ensures
        r@ == s@.subrange(a as int, b as int),
{
    let mut r: Vec<char> = Vec::new();
    let mut i: usize = a;
    while i < b
        invariant
            a <= i <= b <= s.len(),
            r@ == s@.subrange(a as int, i as int),
        decreases b - i,
    {
        r.push(s[i]);
        assert(s@.subrange(a as int, i + 1) =~= s@.subrange(a as int, i as int).push(s@[i as int]));
        i += 1;
    }
    r
}

/// A text without the separator is its own only part.
pub proof fn lemma_split_one(s: Seq<char>, c: char)
    requires
        forall|i: int| 0 <= i < s.len() ==> #[trigger] s[i] != c,
    ensures
        split(s, c) == seq![s],
{
    lemma_find_char_unique(s, c, s.len() as int);
}

/// The first part ends at the first separator; the rest is split on its own.
pub proof fn lemma_split_first(a: Seq<char>, c: char, b: Seq<char>)
    requires
        forall|i: int| 0 <= i < a.len() ==> #[trigger] a[i] != c,
    ensures
        split(a.push(c) + b, c) == seq![a] + split(b, c),
{
    let s = a.push(c) + b;
    assert forall|i: int| 0 <= i < a.len() implies #[trigger] s[i] != c by {
        assert(s[i] == a[i]);
    }
    lemma_find_char_unique(s, c, a.len() as int);
    assert(s.take(a.len() as int) =~= a);
    assert(s.skip(a.len() as int + 1) =~= b);
}

/// The text of an optional string.
pub open spec fn opt_text(o: Option<String>) -> Option<Seq<char>> {
    match o {
        Some(s) => Some(s@),
        None => None,
    }
}

/// The text of an optional string slice.
pub open spec fn opt_str(o: Option<&str>) -> Option<Seq<char>> {
    match o {
        Some(s) => Some(s@),
        None => None,
    }
}

/// A copy of an optional string.
pub fn copy_opt(o: &Option<String>) -> (r: Option<String>)
    ensures
        opt_text(r) == opt_text(*o),
{
    match o {
        Some(s) => Some(s.clone()),
        None => None,
    }
}

/// The texts of a sequence of strings.
pub open spec fn texts(v: Seq<String>) -> Seq<Seq<char>> {
    v.map_values(|s: String| s@)
}

/// Appends a text to a list.
pub fn push_text(v: &mut Vec<String>, s: &str)
    ensures
        texts(final(v)@) == texts(old(v)@).push(s@),
{
    v.push(s.to_owned());
    assert(texts(v@) =~= texts(old(v)@).push(s@));
}

/// The decimal digit of a number below ten.
pub open spec fn digit_char(d: int) -> char {
    (48 + d) as u8 as char
}

/// A number in decimal, without leading zeros.
pub open spec fn decimal(n: nat) -> Seq<char>
    decreases n,
{
    if n < 10 {
        seq![digit_char(n as int)]
    } else {
        decimal(n / 10).push(digit_char((n % 10) as int))
    }
}

/// Whether `c` is one of the ten ASCII digits.
pub open spec fn is_digit(c: char) -> bool {
    '0' <= c <= '9'
}

/// The number that an ASCII digit stands for.
pub open spec fn digit_value(c: char) -> nat {
    (c as u32 - 48) as nat
}

/// Whether every character is an ASCII digit.
pub open spec fn all_digits(s: Seq<char>) -> bool {
    forall|i: int| 0 <= i < s.len() ==> is_digit(#[trigger] s[i])
}

/// The number that a sequence of ASCII digits stands for; none is zero.
pub open spec fn decimal_value(s: Seq<char>) -> nat
    decreases s.len(),
{
    if s.len() == 0 {
        0
    } else {
        decimal_value(s.drop_last()) * 10 + digit_value(s.last())
    }
}

/// Reading a printed number gives the number back.
pub proof fn decimal_round_trip(n: nat)
    ensures
        all_digits(decimal(n)),
        decimal(n).len() > 0,
        decimal_value(decimal(n)) == n,
    decreases n,
{
    if n < 10 {
        let d = seq![digit_char(n as int)];
        assert(d.drop_last() =~= Seq::<char>::empty());
        assert(decimal_value(d.drop_last()) == 0);
        assert(is_digit(d[0]));
    } else {
        decimal_round_trip(n / 10);
        let d = decimal(n);
        assert(d.drop_last() =~= decimal(n / 10));
        assert(is_digit(d.last()));
    }
}

/// Appends a number in decimal.
pub fn push_decimal(s: &mut String, n: u64)
    ensures
        final(s)@ == old(s)@ + decimal(n as nat),
    decreases n,
{
    let ghost before = s@;
    if n >= 10 {
        push_decimal(s, n / 10);
    }
    let d: u8 = (n % 10) as u8;
    s.push((48 + d) as char);
    proof {
        if n < 10 {
            assert(s@ =~= before + decimal(n as nat));
        } else {
            assert(s@ =~= before + decimal((n / 10) as nat).push(digit_char((n % 10) as int)));
        }
    }
}

/// A number in decimal.
pub fn decimal_string(n: u64) -> (r: String)
    ensures
        r@ == decimal(n as nat),
{
    let mut r = String::new();
    push_decimal(&mut r, n);
    assert(r@ =~= decimal(n as nat));
    r
}

/// Whether every character is an ASCII digit.
pub fn digits_only(s: &[char]) -> (r: bool)
    ensures
        r == all_digits(s@),
{
    let mut i: usize = 0;
    while i < s.len()
        invariant
            i <= s.len(),
            forall|k: int| 0 <= k < i ==> is_digit(#[trigger] s@[k]),
        decreases s.len() - i,
    {
        if !('0' <= s[i] && s[i] <= '9') {
            return false;
        }
        i += 1;
    }
    true
}

proof fn lemma_decimal_value_grows(s: Seq<char>, i: int)
    requires
        all_digits(s),
        0 <= i <= s.len(),
    ensures
        decimal_value(s.take(i)) <= decimal_value(s),
    decreases s.len() - i,
{
    if i < s.len() {
        lemma_decimal_value_grows(s, i + 1);
        assert(s.take(i + 1).drop_last() =~= s.take(i));
    } else {
        assert(s.take(i) =~= s);
    }
}

/// The number that a sequence of ASCII digits stands for, if it fits.
pub fn parse_digits(s: &[char]) -> (r: Option<u64>)
    requires
        all_digits(s@),
    ensures
        r matches Some(v) ==> v == decimal_value(s@),
        r is None <==> decimal_value(s@) > u64::MAX,
{
    let mut v: u64 = 0;
    let mut i: usize = 0;
    while i < s.len()
        invariant
            i <= s.len(),
            all_digits(s@),
            v == decimal_value(s@.take(i as int)),
        decreases s.len() - i,
    {
        proof {
            assert(is_digit(s@[i as int]));
            assert(s@.take(i + 1).drop_last() =~= s@.take(i as int));
            lemma_decimal_value_grows(s@, i + 1);
        }
        let d: u64 = (s[i] as u32 - 48) as u64;
        match v.checked_mul(10) {
            None => {
                return None;
            },
            Some(w) => match w.checked_add(d) {
                None => {
                    return None;
                },
                Some(x) => {
                    v = x;
                },
            },
        }
        i += 1;
    }
    assert(s@.take(i as int) =~= s@);
    Some(v)
}

/// The digits of a number that may start with a plus sign.
pub open spec fn unsigned_digits(s: Seq<char>) -> Seq<char> {
    if s.len() > 0 && s[0] == '+' {
        s.skip(1)
    } else {
        s
    }
}

/// The 32-bit number that a text stands for: decimal digits, after a plus sign or
/// not; none if it is anything else or does not fit.
pub open spec fn u32_of(s: Seq<char>) -> Option<u32> {
    let d = unsigned_digits(s);
    if d.len() > 0 && all_digits(d) && decimal_value(d) <= u32::MAX {
        Some(decimal_value(d) as u32)
    } else {
        None
    }
}

/// The 32-bit number that a text stands for.
pub fn parse_u32(s: &str) -> (r: Option<u32>)
    ensures
        r == u32_of(s@),
{
    let cs = chars_of(s);
    let from: usize = if cs.len() > 0 && cs[0] == '+' {
        1
    } else {
        0
    };
    let d = slice_of(cs.as_slice(), from, cs.len());
    assert(d@ =~= unsigned_digits(s@));
    if d.len() == 0 || !digits_only(d.as_slice()) {
        return None;
    }
    match parse_digits(d.as_slice()) {
        None => None,
        Some(v) => if v <= u32::MAX as u64 {
            Some(v as u32)
        } else {
            None
        },
    }
}

/// A printed 32-bit number is read back.
pub proof fn u32_round_trip(n: u32)
    ensures
        u32_of(decimal(n as nat)) == Some(n),
{
    decimal_round_trip(n as nat);
    assert(is_digit(decimal(n as nat)[0]));
}

/// The Unicode `White_Space` property of a character.
pub open spec fn is_white_space(c: char) -> bool {
    ||| '\u{9}' <= c <= '\u{d}'
    ||| c == ' ' || c == '\u{85}' || c == '\u{a0}' || c == '\u{1680}'
    ||| '\u{2000}' <= c <= '\u{200a}'
    ||| c == '\u{2028}' || c == '\u{2029}' || c == '\u{202f}' || c == '\u{205f}' || c == '\u{3000}'
}

/// `char::is_whitespace`: whether a character has the `White_Space` property, which
/// these characters have and no others.
#[verifier::external_body]
fn char_is_whitespace(c: char) -> (r: bool)
    ensures
        r == is_white_space(c),
{
    c.is_whitespace()
}

/// `s` without the white space at its start.
pub open spec fn trim_start(s: Seq<char>) -> Seq<char>
    decreases s.len(),
{
    if s.len() > 0 && is_white_space(s[0]) {
        trim_start(s.drop_first())
    } else {
        s
    }
}

/// `s` without the white space at its end.
pub open spec fn trim_end(s: Seq<char>) -> Seq<char>
    decreases s.len(),
{
    if s.len() > 0 && is_white_space(s.last()) {
        trim_end(s.drop_last())
    } else {
        s
    }
}

/// `s` without the white space at both ends.
pub open spec fn trimmed(s: Seq<char>) -> Seq<char> {
    trim_end(trim_start(s))
}

/// The characters of `s` without the white space at both ends.
pub fn trim_chars(s: &str) -> (r: Vec<char>)
    ensures
        r@ == trimmed(s@),
{
    let cs = chars_of(s);
    let mut a: usize = 0;
    assert(cs@.skip(0) =~= cs@);
    while a < cs.len() && char_is_whitespace(cs[a])
        invariant
            cs@ == s@,
            a <= cs.len(),
            trim_start(s@) == trim_start(cs@.skip(a as int)),
        decreases cs.len() - a,
    {
        assert(cs@.skip(a as int).drop_first() =~= cs@.skip(a + 1));
        a += 1;
    }
    let mut b: usize = cs.len();
    assert(cs@.subrange(a as int, b as int) =~= cs@.skip(a as int));
    while a < b && char_is_whitespace(cs[b - 1])
        invariant
            cs@ == s@,
            a <= b <= cs.len(),
            trimmed(s@) == trim_end(cs@.subrange(a as int, b as int)),
        decreases b - a,
    {
        assert(cs@.subrange(a as int, b as int).drop_last() =~= cs@.subrange(a as int, b - 1));
        b -= 1;
    }
    slice_of(cs.as_slice(), a, b)
}

/// `s` without the white space at both ends.
pub fn trim(s: &str) -> (r: String)
    ensures
        r@ == trimmed(s@),
{
    let cs = trim_chars(s);
    string_of(cs.as_slice())
}

/// The number of characters before the first white space.
pub open spec fn word_end(s: Seq<char>) -> nat
    decreases s.len(),
{
    if s.len() == 0 || is_white_space(s[0]) {
        0
    } else {
        1 + word_end(s.drop_first())
    }
}

/// The runs of characters between white space.
pub open spec fn words(s: Seq<char>) -> Seq<Seq<char>>
    decreases s.len(),
    via words_decreases
{
    if s.len() == 0 {
        Seq::empty()
    } else if is_white_space(s[0]) {
        words(s.drop_first())
    } else {
        let e = word_end(s) as int;
        seq![s.take(e)] + words(s.skip(e))
    }
}

#[via_fn]
proof fn words_decreases(s: Seq<char>) {
    if s.len() > 0 && !is_white_space(s[0]) {
        lemma_word_end(s);
    }
}

proof fn lemma_word_end(s: Seq<char>)
    ensures
        word_end(s) <= s.len(),
        s.len() > 0 && !is_white_space(s[0]) ==> word_end(s) > 0,
        word_end(s) < s.len() ==> is_white_space(s[word_end(s) as int]),
        forall|i: int| 0 <= i < word_end(s) ==> !is_white_space(#[trigger] s[i]),
    decreases s.len(),
{
    if s.len() > 0 && !is_white_space(s[0]) {
        let t = s.drop_first();
        lemma_word_end(t);
        assert forall|i: int| 0 <= i < word_end(s) implies !is_white_space(#[trigger] s[i]) by {
            if i > 0 {
                assert(!is_white_space(t[i - 1]));
            }
        }
    }
}

proof fn lemma_word_end_unique(s: Seq<char>, e: int)
    requires
        0 <= e <= s.len(),
        forall|i: int| 0 <= i < e ==> !is_white_space(#[trigger] s[i]),
        e < s.len() ==> is_white_space(s[e]),
    ensures
        word_end(s) == e,
{
    lemma_word_end(s);
    let w = word_end(s) as int;
    if w < e {
        assert(!is_white_space(s[w]));
    } else if e < w {
        assert(!is_white_space(s[e]));
    }
}

/// The runs of characters between white space.
pub fn words_of(s: &str) -> (r: Vec<String>)
    ensures
        texts(r@) == words(s@),
{
    let cs = chars_of(s);
    let mut r: Vec<String> = Vec::new();
    let mut i: usize = 0;
    assert(cs@.skip(0) =~= cs@);
    assert(texts(r@) + words(cs@) =~= words(s@));
    while i < cs.len()
        invariant
            cs@ == s@,
            i <= cs.len(),
            texts(r@) + words(cs@.skip(i as int)) == words(s@),
        decreases cs.len() - i,
    {
        let ghost rest = cs@.skip(i as int);
        if char_is_whitespace(cs[i]) {
            assert(rest.drop_first() =~= cs@.skip(i + 1));
            i += 1;
        } else {
            let mut e: usize = i;
            while e < cs.len() && !char_is_whitespace(cs[e])
                invariant
                    i <= e <= cs.len(),
                    forall|k: int| i <= k < e ==> !is_white_space(#[trigger] cs@[k]),
                decreases cs.len() - e,
            {
                e += 1;
            }
            proof {
                assert forall|k: int| 0 <= k < e - i implies !is_white_space(#[trigger] rest[k]) by {
                    assert(!is_white_space(cs@[i + k]));
                }
                lemma_word_end_unique(rest, e - i);
                assert(e > i);
            }
            let ghost before = texts(r@);
            let word = string_of(slice_of(cs.as_slice(), i, e).as_slice());
            assert(word@ =~= rest.take(e - i));
            push_text(&mut r, word.as_str());
            proof {
                assert(rest.skip(e - i) =~= cs@.skip(e as int));
                assert(texts(r@) + words(cs@.skip(e as int)) =~= before + (seq![rest.take(e - i)]
                    + words(rest.skip(e - i))));
            }
            i = e;
        }
    }
    assert(texts(r@) + words(cs@.skip(i as int)) =~= texts(r@));
    r
}

/// The lower-case form of a string, by the Unicode rules.
pub uninterp spec fn lower_case(s: Seq<char>) -> Seq<char>;

/// `str::to_lowercase`: the lower-case form of a string.
#[verifier::external_body]
pub(crate) fn to_lower_case(s: &str) -> (r: String)
    ensures
        r@ == lower_case(s@),
{
    s.to_lowercase()
}

/// A string in double quotes with its special characters escaped.
pub uninterp spec fn quoted(s: Seq<char>) -> Seq<char>;

/// `<str as Debug>::fmt`: a string in double quotes with its special characters
/// escaped.
#[verifier::external_body]
pub(crate) fn quote(s: &str) -> (r: String)
    ensures
        r@ == quoted(s@),
{
    format!("{s:?}")
}

/// The ASCII lower-case form of a character; others are kept.
pub open spec fn ascii_lower(c: char) -> char {
    if 'A' <= c <= 'Z' {
        (c as u8 + 32) as u8 as char
    } else {
        c
    }
}

/// The ASCII upper-case form of a character; others are kept.
pub open spec fn ascii_upper(c: char) -> char {
    if 'a' <= c <= 'z' {
        (c as u8 - 32) as u8 as char
    } else {
        c
    }
}

/// `s` with its ASCII capitals in lower case.
pub open spec fn ascii_lowered(s: Seq<char>) -> Seq<char> {
    s.map_values(|c: char| ascii_lower(c))
}

/// `s` with its ASCII small letters in upper case.
pub open spec fn ascii_uppered(s: Seq<char>) -> Seq<char> {
    s.map_values(|c: char| ascii_upper(c))
}

/// `s` with its ASCII capitals in lower case.
pub fn to_ascii_lower(s: &str) -> (r: String)
    ensures
        r@ == ascii_lowered(s@),
{
    let cs = chars_of(s);
    let mut r = String::new();
    let mut i: usize = 0;
    while i < cs.len()
        invariant
            cs@ == s@,
            i <= cs.len(),
            r@ == ascii_lowered(s@.take(i as int)),
        decreases cs.len() - i,
    {
        let c = cs[i];
        if 'A' <= c && c <= 'Z' {
            r.push((c as u8 + 32) as char);
        } else {
            r.push(c);
        }
        i += 1;
        assert(r@ =~= ascii_lowered(s@.take(i as int)));
    }
    assert(s@.take(i as int) =~= s@);
    r
}

/// `s` with its ASCII small letters in upper case.
pub fn to_ascii_upper(s: &str) -> (r: String)
    ensures
        r@ == ascii_uppered(s@),
{
    let cs = chars_of(s);
    let mut r = String::new();
    let mut i: usize = 0;
    while i < cs.len()
        invariant
            cs@ == s@,
            i <= cs.len(),
            r@ == ascii_uppered(s@.take(i as int)),
        decreases cs.len() - i,
    {
        let c = cs[i];
        if 'a' <= c && c <= 'z' {
            r.push((c as u8 - 32) as char);
        } else {
            r.push(c);
        }
        i += 1;
        assert(r@ =~= ascii_uppered(s@.take(i as int)));
    }
    assert(s@.take(i as int) =~= s@);
    r
}

/// Trimming takes the white space around a text and leaves the rest as it is, also
/// where it holds white space within.
pub proof fn trimming_takes_what_is_around(before: Seq<char>, s: Seq<char>, after: Seq<char>)
    requires
        s.len() > 0,
        !is_white_space(s[0]),
        !is_white_space(s.last()),
        forall|i: int| 0 <= i < before.len() ==> is_white_space(#[trigger] before[i]),
        forall|i: int| 0 <= i < after.len() ==> is_white_space(#[trigger] after[i]),
    ensures
        trimmed(before + s + after) == s,
{
    lemma_trim_front(before, s + after);
    assert(before + s + after =~= before + (s + after));
    assert((s + after)[0] == s[0]);
    lemma_trim_back(s, after);
}

proof fn lemma_trim_front(before: Seq<char>, s: Seq<char>)
    requires
        s.len() > 0,
        !is_white_space(s[0]),
        forall|i: int| 0 <= i < before.len() ==> is_white_space(#[trigger] before[i]),
    ensures
        trim_start(before + s) == s,
    decreases before.len(),
{
    if before.len() > 0 {
        let t = before.drop_first();
        assert(is_white_space(before[0]));
        assert forall|i: int| 0 <= i < t.len() implies is_white_space(#[trigger] t[i]) by {
            assert(is_white_space(before[i + 1]));
        }
        assert((before + s).drop_first() =~= t + s);
        lemma_trim_front(t, s);
    } else {
        assert(before + s =~= s);
    }
}

proof fn lemma_trim_back(s: Seq<char>, after: Seq<char>)
    requires
        s.len() > 0,
        !is_white_space(s.last()),
        forall|i: int| 0 <= i < after.len() ==> is_white_space(#[trigger] after[i]),
    ensures
        trim_end(s + after) == s,
    decreases after.len(),
{
    if after.len() > 0 {
        let t = after.drop_last();
        assert(is_white_space(after[after.len() - 1]));
        assert forall|i: int| 0 <= i < t.len() implies is_white_space(#[trigger] t[i]) by {
            assert(is_white_space(after[i]));
        }
        assert((s + after).drop_last() =~= s + t);
        lemma_trim_back(s, t);
    } else {
        assert(s + after =~= s);
    }
}

/// The ASCII cases are each other's: putting a letter in one case and then in the
/// other gives the latter, and what is no letter stays.
pub proof fn the_cases_are_each_others(c: char)
    ensures
        ascii_lower(ascii_upper(c)) == ascii_lower(c),
        ascii_upper(ascii_lower(c)) == ascii_upper(c),
        !('a' <= c <= 'z') && !('A' <= c <= 'Z') ==> ascii_lower(c) == c && ascii_upper(c) == c,
        ascii_lower('A') == 'a' && ascii_lower('Z') == 'z' && ascii_upper('q') == 'Q',
{
}

/// A word with white space or nothing behind it is the first of the words.
pub proof fn lemma_word_first(word: Seq<char>, rest: Seq<char>)
    requires
        word.len() > 0,
        rest.len() == 0 || is_white_space(rest[0]),
        forall|i: int| 0 <= i < word.len() ==> !is_white_space(#[trigger] word[i]),
    ensures
        words(word + rest) == seq![word] + words(rest),
{
    let s = word + rest;
    assert forall|i: int| 0 <= i < word.len() implies !is_white_space(#[trigger] s[i]) by {
        assert(!is_white_space(word[i]));
    }
    lemma_word_end_unique(s, word.len() as int);
    assert(s.take(word.len() as int) =~= word);
    assert(s.skip(word.len() as int) =~= rest);
}

/// Trimming a second time takes nothing more.
pub proof fn trimming_twice_is_trimming_once(s: Seq<char>)
    ensures
        trimmed(trimmed(s)) == trimmed(s),
        trimmed(s).len() > 0 ==> !is_white_space(trimmed(s)[0]) && !is_white_space(
            trimmed(s).last(),
        ),
{
    lemma_trim_start_clean(s);
    lemma_trim_end_clean(trim_start(s));
}

proof fn lemma_trim_start_clean(s: Seq<char>)
    ensures
        trim_start(s).len() > 0 ==> !is_white_space(trim_start(s)[0]),
    decreases s.len(),
{
    if s.len() > 0 && is_white_space(s[0]) {
        lemma_trim_start_clean(s.drop_first());
    }
}

proof fn lemma_trim_end_clean(s: Seq<char>)
    ensures
        trim_end(s).len() > 0 ==> !is_white_space(trim_end(s).last()) && trim_end(s)[0] == s[0],
        trim_end(s).len() <= s.len(),
    decreases s.len(),
{
    if s.len() > 0 && is_white_space(s.last()) {
        lemma_trim_end_clean(s.drop_last());
    }
}

} // verus!
