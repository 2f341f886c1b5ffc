//! Text helpers over character sequences.
//!
//! Every function here is specified over `Seq<char>`, the view of `str` and
//! `String`. The executable code first spreads a string into a `Vec<char>` so
//! that positions can be addressed in constant time.

use vstd::prelude::*;
use vstd::utf8::{decode_utf8, valid_utf8};

verus! {

/// `String::push` appends exactly one character to the end of the string.
pub assume_specification[ String::push ](s: &mut String, c: char)
    ensures
        final(s)@ == old(s)@.push(c),
;

/// `String::from_utf8` accepts a byte vector exactly when it is well-formed
/// UTF-8, and the accepted string holds the characters those bytes decode to.
#[verifier::external_body]
pub(crate) fn string_from_utf8(bytes: Vec<u8>) -> (res: Option<String>)
    ensures
        res is Some <==> valid_utf8(bytes@),
        res matches Some(s) ==> s@ == decode_utf8(bytes@),
{
    match String::from_utf8(bytes) {
        Ok(s) => Some(s),
        Err(_) => None,
    }
}

/// The text that `String::from_utf8_lossy` makes of `bytes`: the decoded
/// characters, with each malformed stretch replaced by a substitute character.
pub uninterp spec fn lossy_text(bytes: Seq<u8>) -> Seq<char>;

/// `String::from_utf8_lossy` turns any bytes into text. Bytes that are
/// well-formed UTF-8 come out as the characters they decode to.
#[verifier::external_body]
pub(crate) fn string_from_utf8_lossy(bytes: &[u8]) -> (s: String)
    ensures
        s@ == lossy_text(bytes@),
        valid_utf8(bytes@) ==> s@ == decode_utf8(bytes@),
{
    String::from_utf8_lossy(bytes).into_owned()
}

/// The characters of `s`, in order.
pub fn chars_of(s: &str) -> (chars: Vec<char>)
    ensures
        chars@ == s@,
{
    let mut chars: Vec<char> = Vec::new();
    for c in it: s.chars()
        invariant
            it.seq() == s@,
            chars@ == it.seq().take(it.index() as int),
    {
        chars.push(c);
    }
    chars
}

/// The string made of `chars[from..to]`.
pub(crate) fn string_of(chars: &Vec<char>, from: usize, to: usize) -> (s: String)
    requires
        from <= to <= chars.len(),
    ensures
        s@ == chars@.subrange(from as int, to as int),
{
    let mut s = String::new();
    let mut i: usize = from;
    while i < to
        invariant
            from <= i <= to <= chars.len(),
            s@ == chars@.subrange(from as int, i as int),
        decreases to - i,
    {
        s.push(chars[i]);
        i += 1;
    }
    s
}

/// Whether `needle` occurs in `hay` starting at position `at`.
pub open spec fn occurs_at(hay: Seq<char>, needle: Seq<char>, at: int) -> bool {
    &&& 0 <= at
    &&& at + needle.len() <= hay.len()
    &&& hay.subrange(at, at + needle.len()) == needle
}

/// Whether `needle` occurs anywhere in `hay`.
pub open spec fn spec_contains(hay: Seq<char>, needle: Seq<char>) -> bool {
    exists|at: int| occurs_at(hay, needle, at)
}

fn matches_at(hay: &Vec<char>, needle: &Vec<char>, at: usize) -> (b: bool)
    ensures
        b == occurs_at(hay@, needle@, at as int),
{
    if needle.len() > hay.len() || at > hay.len() - needle.len() {
        return false;
    }
    let mut j: usize = 0;
    while j < needle.len()
        invariant
            j <= needle.len(),
            at + needle.len() <= hay.len(),
            forall|k: int| 0 <= k < j ==> hay@[at + k] == needle@[k],
        decreases needle.len() - j,
    {
        if hay[at + j] != needle[j] {
            assert(hay@.subrange(at as int, at + needle.len())[j as int] == hay@[at + j]);
            return false;
        }
        j += 1;
    }
    assert(hay@.subrange(at as int, at + needle.len()) =~= needle@);
    true
}

/// A text contains what it was put together from: whatever stands before
/// and behind, the part in the middle occurs in the whole.
pub proof fn lemma_contains_inner(before: Seq<char>, inner: Seq<char>, behind: Seq<char>)
    ensures
        spec_contains(before + inner + behind, inner),
{
    let whole = before + inner + behind;
    assert(whole.subrange(before.len() as int, (before.len() + inner.len()) as int) =~= inner);
    assert(occurs_at(whole, inner, before.len() as int));
}

/// Whether `s` begins with `prefix`.
pub fn starts_with(s: &str, prefix: &str) -> (b: bool)
    ensures
        b == prefix@.is_prefix_of(s@),
{
    let hay = chars_of(s);
    let needle = chars_of(prefix);
    let b = matches_at(&hay, &needle, 0);
    proof {
        if b {
            assert(s@.subrange(0, prefix@.len() as int) == prefix@);
        }
        if prefix@.is_prefix_of(s@) {
            assert(s@.subrange(0, prefix@.len() as int) =~= prefix@);
        }
    }
    b
}

/// Whether `s` ends with `suffix`.
pub fn ends_with(s: &str, suffix: &str) -> (b: bool)
    ensures
        b == suffix@.is_suffix_of(s@),
{
    let hay = chars_of(s);
    let needle = chars_of(suffix);
    if needle.len() > hay.len() {
        return false;
    }
    let at = hay.len() - needle.len();
    let b = matches_at(&hay, &needle, at);
    proof {
        if suffix@.is_suffix_of(s@) {
            assert(s@.subrange(at as int, s@.len() as int) =~= suffix@);
        }
    }
    b
}

/// What is left of `s` once `prefix` is taken off its front, if `s` begins
/// with `prefix`.
pub fn strip_prefix(s: &str, prefix: &str) -> (rest: Option<String>)
    ensures
        rest is Some <==> prefix@.is_prefix_of(s@),
        rest matches Some(r) ==> r@ == s@.skip(prefix@.len() as int),
{
    let hay = chars_of(s);
    let needle = chars_of(prefix);
    let b = matches_at(&hay, &needle, 0);
    proof {
        if b {
            assert(s@.subrange(0, prefix@.len() as int) == prefix@);
        }
        if prefix@.is_prefix_of(s@) {
            assert(s@.subrange(0, prefix@.len() as int) =~= prefix@);
        }
    }
    if b {
        Some(string_of(&hay, needle.len(), hay.len()))
    } else {
        None
    }
}

/// Whether `needle` occurs somewhere in `s`.
pub fn contains(s: &str, needle: &str) -> (b: bool)
    ensures
        b == spec_contains(s@, needle@),
{
    let hay = chars_of(s);
    let pat = chars_of(needle);
    if pat.len() > hay.len() {
        return false;
    }
    let last = hay.len() - pat.len();
    let mut at: usize = 0;
    while at < last
        invariant
            at <= last,
            last == hay.len() - pat.len(),
            pat.len() <= hay.len(),
            hay@ == s@,
            pat@ == needle@,
            forall|k: int| 0 <= k < at ==> !occurs_at(hay@, pat@, k),
        decreases last - at,
    {
        if matches_at(&hay, &pat, at) {
            return true;
        }
        at += 1;
    }
    matches_at(&hay, &pat, last)
}

/// Whether `at` is the position of the first `c` in `s`.
pub open spec fn is_first(s: Seq<char>, c: char, at: int) -> bool {
    &&& 0 <= at < s.len()
    &&& s[at] == c
    &&& forall|k: int| 0 <= k < at ==> s[k] != c
}

/// Position of the first `c` in `s`.
pub open spec fn first_position(s: Seq<char>, c: char) -> Option<int> {
    if exists|at: int| is_first(s, c, at) {
        Some(choose|at: int| is_first(s, c, at))
    } else {
        None
    }
}

/// A position that is first is the first position.
pub proof fn lemma_first_position(s: Seq<char>, c: char, at: int)
    requires
        is_first(s, c, at),
    ensures
        first_position(s, c) == Some(at),
{
    let chosen = choose|p: int| is_first(s, c, p);
    assert(is_first(s, c, chosen));
    if chosen < at {
        assert(s[chosen] != c);
    }
    if at < chosen {
        assert(s[at] != c);
    }
}

/// Position of the first occurrence of `c` in `s`.
pub fn find_char(s: &str, c: char) -> (pos: Option<usize>)
    ensures
        match pos {
            Some(p) => first_position(s@, c) == Some(p as int),
            None => first_position(s@, c) is None,
        },
        pos is Some <==> s@.contains(c),
{
    let hay = chars_of(s);
    let mut i: usize = 0;
    while i < hay.len()
        invariant
            i <= hay.len(),
            hay@ == s@,
            forall|k: int| 0 <= k < i ==> hay@[k] != c,
        decreases hay.len() - i,
    {
        if hay[i] == c {
            proof {
                lemma_first_position(s@, c, i as int);
            }
            return Some(i);
        }
        i += 1;
    }
    assert forall|at: int| !is_first(s@, c, at) by {}
    None
}

/// The first `count` characters of `s`; all of `s` if it has fewer.
pub fn prefix(s: &str, count: usize) -> (out: String)
    ensures
        out@ == if count <= s@.len() {
            s@.take(count as int)
        } else {
            s@
        },
{
    let chars = chars_of(s);
    if count <= chars.len() {
        string_of(&chars, 0, count)
    } else {
        let out = string_of(&chars, 0, chars.len());
        assert(out@ =~= s@);
        out
    }
}

/// Appends `chars` to `out`.
pub fn push_chars(out: &mut String, chars: &Vec<char>)
    ensures
        final(out)@ == old(out)@ + chars@,
{
    let mut i: usize = 0;
    while i < chars.len()
        invariant
            i <= chars.len(),
            out@ == old(out)@ + chars@.take(i as int),
        decreases chars.len() - i,
    {
        out.push(chars[i]);
        assert(out@ =~= old(out)@ + chars@.take(i as int + 1));
        i += 1;
    }
    assert(chars@.take(i as int) =~= chars@);
}

/// Appends `text` to `out`.
pub fn push_text(out: &mut String, text: &str)
    ensures
        final(out)@ == old(out)@ + text@,
{
    let chars = chars_of(text);
    push_chars(out, &chars);
}

/// `a` followed by `b`.
pub fn concat(a: &str, b: &str) -> (s: String)
    ensures
        s@ == a@ + b@,
{
    let mut s = String::new();
    push_text(&mut s, a);
    push_text(&mut s, b);
    assert(s@ =~= a@ + b@);
    s
}

/// `hay` with every occurrence of `pattern` replaced by `with`, found from
/// left to right without overlap. An empty pattern occurs nowhere.
pub open spec fn spec_replace(hay: Seq<char>, pattern: Seq<char>, with: Seq<char>) -> Seq<char>
    decreases hay.len(),
{
    if pattern.len() == 0 || hay.len() < pattern.len() {
        hay
    } else if hay.take(pattern.len() as int) == pattern {
        with + spec_replace(hay.skip(pattern.len() as int), pattern, with)
    } else {
        seq![hay[0]] + spec_replace(hay.skip(1), pattern, with)
    }
}

/// `s` with every occurrence of `pattern` replaced by `with`.
pub fn replace(s: &str, pattern: &str, with: &str) -> (out: String)
    ensures
        out@ == spec_replace(s@, pattern@, with@),
{
    let hay = chars_of(s);
    let pat = chars_of(pattern);
    let sub = chars_of(with);
    let mut out = String::new();
    if pat.len() == 0 {
        push_chars(&mut out, &hay);
        assert(out@ =~= s@);
        return out;
    }
    let mut i: usize = 0;
    assert(hay@.skip(0) =~= hay@);
    assert(out@ + spec_replace(hay@.skip(0), pat@, sub@) =~= spec_replace(hay@, pat@, sub@));
    while i < hay.len()
        invariant
            i <= hay.len(),
            pat.len() > 0,
            hay@ == s@,
            pat@ == pattern@,
            sub@ == with@,
            out@ + spec_replace(hay@.skip(i as int), pat@, sub@) == spec_replace(hay@, pat@, sub@),
        decreases hay.len() - i,
    {
        let ghost rest = hay@.skip(i as int);
        let ghost before = out@;
        if matches_at(&hay, &pat, i) {
            proof {
                assert(rest.take(pat@.len() as int) =~= hay@.subrange(i as int, i + pat@.len()));
                assert(rest.skip(pat@.len() as int) =~= hay@.skip(i + pat@.len()));
            }
            push_chars(&mut out, &sub);
            i += pat.len();
            assert(out@ + spec_replace(hay@.skip(i as int), pat@, sub@) =~= before + (sub@ + spec_replace(
                hay@.skip(i as int),
                pat@,
                sub@,
            )));
        } else {
            proof {
                if rest.len() >= pat@.len() {
                    assert(rest.take(pat@.len() as int) =~= hay@.subrange(i as int, i + pat@.len()));
                }
                assert(rest.skip(1) =~= hay@.skip(i + 1));
                if rest.len() < pat@.len() {
                    lemma_replace_short(rest, pat@, sub@);
                    lemma_replace_short(rest.skip(1), pat@, sub@);
                    assert(rest =~= seq![rest[0]] + rest.skip(1));
                }
            }
            out.push(hay[i]);
            i += 1;
            assert(out@ + spec_replace(hay@.skip(i as int), pat@, sub@) =~= before + (seq![rest[0]]
                + spec_replace(hay@.skip(i as int), pat@, sub@)));
        }
    }
    assert(hay@.skip(i as int) =~= Seq::empty());
    assert(out@ + Seq::<char>::empty() =~= out@);
    out
}

/// A text shorter than the pattern is left as it is.
pub proof fn lemma_replace_short(hay: Seq<char>, pattern: Seq<char>, with: Seq<char>)
    requires
        hay.len() < pattern.len(),
    ensures
        spec_replace(hay, pattern, with) == hay,
{
}

/// The texts of `parts` with `separator` between each two neighbours.
pub open spec fn spec_join(parts: Seq<Seq<char>>, separator: Seq<char>) -> Seq<char>
    decreases parts.len(),
{
    if parts.len() == 0 {
        Seq::empty()
    } else if parts.len() == 1 {
        parts[0]
    } else {
        spec_join(parts.drop_last(), separator) + separator + parts.last()
    }
}

/// Mathematical content of a list of strings.
pub open spec fn strings_view(parts: Seq<String>) -> Seq<Seq<char>> {
    parts.map_values(|s: String| s@)
}

/// The strings of `parts` with `separator` between each two neighbours.
pub fn join(parts: &Vec<String>, separator: &str) -> (out: String)
    ensures
        out@ == spec_join(strings_view(parts@), separator@),
{
    let mut out = String::new();
    let mut i: usize = 0;
    assert(strings_view(parts@).take(0) =~= Seq::empty());
    while i < parts.len()
        invariant
            i <= parts.len(),
            out@ == spec_join(strings_view(parts@).take(i as int), separator@),
        decreases parts.len() - i,
    {
        let ghost upto = strings_view(parts@).take(i as int + 1);
        proof {
            assert(upto.drop_last() =~= strings_view(parts@).take(i as int));
            assert(upto.last() == parts@[i as int]@);
            if i == 0 {
                assert(upto[0] == parts@[0]@);
            }
        }
        if i > 0 {
            push_text(&mut out, separator);
        }
        push_text(&mut out, parts[i].as_str());
        assert(out@ =~= spec_join(upto, separator@));
        i += 1;
    }
    assert(strings_view(parts@).take(i as int) =~= strings_view(parts@));
    out
}

/// Whether `c` is one of the ten decimal digits.
pub open spec fn is_digit(c: char) -> bool {
    '0' <= c && c <= '9'
}

/// The number that the digit `c` stands for.
pub open spec fn digit_value(c: char) -> nat {
    (c as u32 - '0' as u32) as nat
}

/// The number that a run of decimal digits stands for.
pub open spec fn decimal_value(digits: Seq<char>) -> nat
    decreases digits.len(),
{
    if digits.len() == 0 {
        0
    } else {
        decimal_value(digits.drop_last()) * 10 + digit_value(digits.last())
    }
}

/// Whether `digits` is a non-empty run of decimal digits.
pub open spec fn all_digits(digits: Seq<char>) -> bool {
    digits.len() > 0 && forall|i: int| 0 <= i < digits.len() ==> is_digit(#[trigger] digits[i])
}

/// `s` without one leading plus sign.
pub open spec fn unsigned_part(s: Seq<char>) -> Seq<char> {
    if s.len() > 0 && s[0] == '+' {
        s.skip(1)
    } else {
        s
    }
}

/// The number that `s` denotes if `s` is a decimal number no greater than
/// `max`: decimal digits, at least one, behind at most one plus sign.
pub open spec fn spec_parse_number(s: Seq<char>, max: nat) -> Option<nat> {
    if all_digits(unsigned_part(s)) && decimal_value(unsigned_part(s)) <= max {
        Some(decimal_value(unsigned_part(s)))
    } else {
        None
    }
}

/// Digits appended to a number do not make it smaller.
pub proof fn lemma_decimal_value_grows(digits: Seq<char>, upto: int)
    requires
        0 <= upto <= digits.len(),
    ensures
        decimal_value(digits.take(upto)) <= decimal_value(digits),
    decreases digits.len() - upto,
{
    if upto < digits.len() {
        lemma_decimal_value_grows(digits, upto + 1);
        assert(digits.take(upto + 1).drop_last() =~= digits.take(upto));
    } else {
        assert(digits.take(upto) =~= digits);
    }
}

/// Parses a decimal number no greater than `max`.
pub fn parse_number(s: &str, max: u64) -> (value: Option<u64>)
    ensures
        match value {
            Some(v) => spec_parse_number(s@, max as nat) == Some(v as nat),
            None => spec_parse_number(s@, max as nat) is None,
        },
{
    let chars = chars_of(s);
    let start: usize = if chars.len() > 0 && chars[0] == '+' {
        1
    } else {
        0
    };
    let ghost digits = unsigned_part(s@);
    assert(digits =~= chars@.skip(start as int));
    if start == chars.len() {
        return None;
    }
    let mut value: u64 = 0;
    let mut i: usize = start;
    assert(digits.take(0) =~= Seq::empty());
    while i < chars.len()
        invariant
            start <= i <= chars.len(),
            digits == chars@.skip(start as int),
            digits == unsigned_part(s@),
            value == decimal_value(digits.take(i - start)),
            value <= max,
            forall|k: int| 0 <= k < i - start ==> is_digit(#[trigger] digits[k]),
        decreases chars.len() - i,
    {
        let c = chars[i];
        assert(digits[i - start] == c);
        if !(c >= '0' && c <= '9') {
            return None;
        }
        let digit = (c as u32 - '0' as u32) as u64;
        proof {
            assert(digits.take(i - start + 1).drop_last() =~= digits.take(i - start));
            assert(digits.take(i - start + 1).last() == c);
            lemma_decimal_value_grows(digits, i - start + 1);
        }
        if digit > max || value > (max - digit) / 10 {
            assert(value * 10 + digit > max);
            return None;
        }
        value = value * 10 + digit;
        i += 1;
    }
    assert(digits.take(i - start) =~= digits);
    Some(value)
}

/// Parses a decimal number that fits `u32`.
pub fn parse_u32(s: &str) -> (value: Option<u32>)
    ensures
        match value {
            Some(v) => spec_parse_number(s@, u32::MAX as nat) == Some(v as nat),
            None => spec_parse_number(s@, u32::MAX as nat) is None,
        },
{
    match parse_number(s, 0xffff_ffff) {
        Some(v) => Some(v as u32),
        None => None,
    }
}

/// Parses a decimal number that fits `u16`.
pub fn parse_u16(s: &str) -> (value: Option<u16>)
    ensures
        match value {
            Some(v) => spec_parse_number(s@, u16::MAX as nat) == Some(v as nat),
            None => spec_parse_number(s@, u16::MAX as nat) is None,
        },
{
    match parse_number(s, 0xffff) {
        Some(v) => Some(v as u16),
        None => None,
    }
}

/// The digit that stands for `d`.
pub open spec fn digit_char(d: nat) -> char {
    if d == 0 {
        '0'
    } else if d == 1 {
        '1'
    } else if d == 2 {
        '2'
    } else if d == 3 {
        '3'
    } else if d == 4 {
        '4'
    } else if d == 5 {
        '5'
    } else if d == 6 {
        '6'
    } else if d == 7 {
        '7'
    } else if d == 8 {
        '8'
    } else {
        '9'
    }
}

/// The decimal digits of `n`, without leading zeros.
pub open spec fn spec_decimal(n: nat) -> Seq<char>
    decreases n,
{
    if n < 10 {
        seq![digit_char(n)]
    } else {
        spec_decimal(n / 10).push(digit_char(n % 10))
    }
}

fn digit_of(d: u64) -> (c: char)
    requires
        d < 10,
    ensures
        c == digit_char(d as nat),
{
    if d == 0 {
        '0'
    } else if d == 1 {
        '1'
    } else if d == 2 {
        '2'
    } else if d == 3 {
        '3'
    } else if d == 4 {
        '4'
    } else if d == 5 {
        '5'
    } else if d == 6 {
        '6'
    } else if d == 7 {
        '7'
    } else if d == 8 {
        '8'
    } else {
        '9'
    }
}

/// Appends the decimal digits of `n` to `out`.
pub fn push_decimal(out: &mut String, n: u64)
    ensures
        final(out)@ == old(out)@ + spec_decimal(n as nat),
    decreases n,
{
    if n >= 10 {
        push_decimal(out, n / 10);
    }
    out.push(digit_of(n % 10));
    assert(out@ =~= old(out)@ + spec_decimal(n as nat));
}

/// The decimal digits of `n`.
pub fn decimal(n: u64) -> (s: String)
    ensures
        s@ == spec_decimal(n as nat),
{
    let mut s = String::new();
    push_decimal(&mut s, n);
    assert(s@ =~= spec_decimal(n as nat));
    s
}

/// Writing a number and reading it back gives the number: the decimal digits
/// of `n` are digits, and they denote `n`.
pub proof fn law_decimal_round_trip(n: nat, max: nat)
    requires
        n <= max,
    ensures
        all_digits(spec_decimal(n)),
        decimal_value(spec_decimal(n)) == n,
        spec_parse_number(spec_decimal(n), max) == Some(n),
    decreases n,
{
    if n < 10 {
        assert(spec_decimal(n).drop_last() =~= Seq::empty());
        assert(decimal_value(spec_decimal(n).drop_last()) == 0);
    } else {
        law_decimal_round_trip(n / 10, max);
        assert(spec_decimal(n).drop_last() =~= spec_decimal(n / 10));
    }
    assert(spec_decimal(n)[0] != '+');
}

} // verus!
