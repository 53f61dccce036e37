//! Text as a sequence of characters: comparing, trimming, splitting and the
//! decimal and hexadecimal forms of numbers.

use vstd::prelude::*;
use vstd::utf8::encode_utf8;

verus! {

/// `String::push` appends one character to the end of the string.
pub assume_specification[ String::push ](s: &mut String, c: char)
    ensures
        final(s)@ == old(s)@.push(c),
;

/// `char::is_whitespace` tells whether a character has the Unicode property
/// White_Space.
pub assume_specification[ char::is_whitespace ](c: char) -> (r: bool)
    ensures
        r == white_space(c),
;

/// The characters with the Unicode property White_Space.
pub open spec fn white_space(c: char) -> bool {
    let n = c as int;
    ||| 0x09 <= n <= 0x0d
    ||| n == 0x20
    ||| n == 0x85
    ||| n == 0xa0
    ||| n == 0x1680
    ||| 0x2000 <= n <= 0x200a
    ||| n == 0x2028
    ||| n == 0x2029
    ||| n == 0x202f
    ||| n == 0x205f
    ||| n == 0x3000
}

/// ASCII white space: space, tab, line feed, form feed and carriage return.
pub open spec fn ascii_white_space(c: char) -> bool {
    c == ' ' || c == '\t' || c == '\n' || c == '\x0c' || c == '\r'
}

/// Which characters count as blank when text is trimmed.
#[derive(Clone, Copy, PartialEq, Eq, Structural)]
pub enum Blank {
    Ascii,
    Unicode,
}

pub open spec fn is_blank(blank: Blank, c: char) -> bool {
    match blank {
        Blank::Ascii => ascii_white_space(c),
        Blank::Unicode => white_space(c),
    }
}

/// `s` without its leading blank characters.
pub open spec fn trim_start(s: Seq<char>, blank: Blank) -> Seq<char>
    decreases s.len(),
{
    if s.len() > 0 && is_blank(blank, s[0]) {
        trim_start(s.drop_first(), blank)
    } else {
        s
    }
}

/// `s` without its trailing blank characters.
pub open spec fn trim_end(s: Seq<char>, blank: Blank) -> Seq<char>
    decreases s.len(),
{
    if s.len() > 0 && is_blank(blank, s.last()) {
        trim_end(s.drop_last(), blank)
    } else {
        s
    }
}

/// `s` without its leading and trailing blank characters.
pub open spec fn trim(s: Seq<char>, blank: Blank) -> Seq<char> {
    trim_end(trim_start(s, blank), blank)
}

/// The pieces of `s` between the occurrences of `separator`; text without a
/// separator is one piece.
pub open spec fn split_on(s: Seq<char>, separator: char) -> Seq<Seq<char>>
    decreases s.len(),
{
    if s.len() == 0 {
        seq![Seq::<char>::empty()]
    } else {
        let before = split_on(s.drop_last(), separator);
        if s.last() == separator {
            before.push(Seq::<char>::empty())
        } else {
            before.drop_last().push(before.last().push(s.last()))
        }
    }
}

/// The items with `separator` between each two of them.
pub open spec fn join(items: Seq<Seq<char>>, separator: Seq<char>) -> Seq<char>
    decreases items.len(),
{
    if items.len() == 0 {
        Seq::empty()
    } else if items.len() == 1 {
        items[0]
    } else {
        join(items.drop_last(), separator) + separator + items.last()
    }
}

/// The part of `s` before the first `c`; all of `s` where it has no `c`.
pub open spec fn before_first(s: Seq<char>, c: char) -> Seq<char> {
    if s.contains(c) {
        s.take(s.index_of_first(c)->0)
    } else {
        s
    }
}

pub open spec fn has_suffix(s: Seq<char>, suffix: Seq<char>) -> bool {
    s.len() >= suffix.len() && s.skip(s.len() - suffix.len()) == suffix
}

pub open spec fn has_prefix(s: Seq<char>, prefix: Seq<char>) -> bool {
    s.len() >= prefix.len() && s.take(prefix.len() as int) == prefix
}

/// The texts of a sequence of strings.
pub open spec fn texts(strings: Seq<String>) -> Seq<Seq<char>> {
    Seq::new(strings.len(), |i: int| strings[i]@)
}

/// The text of an optional string.
pub open spec fn opt_text(s: Option<String>) -> Option<Seq<char>> {
    match s {
        Some(t) => Some(t@),
        None => None,
    }
}

pub open spec fn digit_char(d: nat) -> char {
    (0x30 + d) as char
}

/// The decimal form of `n`, without leading zeros.
pub open spec fn decimal(n: nat) -> Seq<char>
    decreases n,
{
    if n < 10 {
        seq![digit_char(n)]
    } else {
        decimal(n / 10).push(digit_char(n % 10))
    }
}

pub open spec fn is_digit(c: char) -> bool {
    '0' <= c <= '9'
}

pub open spec fn all_digits(s: Seq<char>) -> bool {
    forall|i: int| 0 <= i < s.len() ==> is_digit(#[trigger] s[i])
}

/// The number that a sequence of decimal digits denotes.
pub open spec fn decimal_value(s: Seq<char>) -> nat
    decreases s.len(),
{
    if s.len() == 0 {
        0
    } else {
        10 * decimal_value(s.drop_last()) + (s.last() as int - 0x30) as nat
    }
}

/// What text denotes as an unsigned number of at most `max`: an optional plus
/// sign and one or more decimal digits.
pub open spec fn unsigned_value(s: Seq<char>, max: nat) -> Option<nat> {
    let digits = if s.len() > 0 && s[0] == '+' {
        s.drop_first()
    } else {
        s
    };
    if digits.len() > 0 && all_digits(digits) && decimal_value(digits) <= max {
        Some(decimal_value(digits))
    } else {
        None
    }
}

pub open spec fn hex_char(d: nat) -> char {
    if d < 10 {
        (0x30 + d) as char
    } else {
        (0x61 + (d - 10)) as char
    }
}

/// The last `width` hexadecimal digits of `n`, in lower case.
pub open spec fn hex(n: nat, width: nat) -> Seq<char>
    decreases width,
{
    if width == 0 {
        Seq::empty()
    } else {
        hex(n / 16, (width - 1) as nat).push(hex_char(n % 16))
    }
}

/// `c` with an ASCII capital letter turned into the small one.
pub open spec fn ascii_lower_char(c: char) -> char {
    if 'A' <= c <= 'Z' {
        (c as int + 0x20) as char
    } else {
        c
    }
}

pub open spec fn ascii_lower(s: Seq<char>) -> Seq<char> {
    Seq::new(s.len(), |i: int| ascii_lower_char(s[i]))
}

/// Byte-wise lexicographic order.
pub open spec fn bytes_le(a: Seq<u8>, b: Seq<u8>) -> bool
    decreases a.len(),
{
    if a.len() == 0 {
        true
    } else if b.len() == 0 {
        false
    } else if a[0] != b[0] {
        a[0] < b[0]
    } else {
        bytes_le(a.drop_first(), b.drop_first())
    }
}

/// The order of text by its UTF-8 bytes.
pub open spec fn text_le(a: Seq<char>, b: Seq<char>) -> bool {
    bytes_le(encode_utf8(a), encode_utf8(b))
}

/// The characters of `s`, in order.
pub(crate) fn chars_of(s: &str) -> (r: Vec<char>)
    ensures
        r@ == s@,
{
    let mut out: Vec<char> = Vec::new();
    for c in it: s.chars()
        invariant
            it.seq() == s@,
            out@ == s@.take(it.index()),
    {
        out.push(c);
    }
    out
}

/// The string of the characters from `from` up to `to`.
pub(crate) fn string_of(chars: &Vec<char>, from: usize, to: usize) -> (r: String)
    requires
        from <= to <= chars@.len(),
    ensures
        r@ == chars@.subrange(from as int, to as int),
{
    let mut out = String::new();
    let mut i: usize = from;
    while i < to
        invariant
            from <= i <= to <= chars@.len(),
            out@ == chars@.subrange(from as int, i as int),
        decreases to - i,
    {
        out.push(chars[i]);
        i += 1;
    }
    out
}

proof fn lemma_encode_injective(a: Seq<char>, b: Seq<char>)
    requires
        encode_utf8(a) == encode_utf8(b),
    ensures
        a == b,
{
    vstd::utf8::encode_utf8_decode_utf8(a);
    vstd::utf8::encode_utf8_decode_utf8(b);
}

/// Whether two texts are equal.
pub(crate) fn same_text(a: &str, b: &str) -> (r: bool)
    ensures
        r == (a@ == b@),
{
    let x = a.as_bytes();
    let y = b.as_bytes();
    if x.len() != y.len() {
        return false;
    }
    let mut i: usize = 0;
    while i < x.len()
        invariant
            i <= x@.len(),
            x@.len() == y@.len(),
            x@ == encode_utf8(a@),
            y@ == encode_utf8(b@),
            x@.take(i as int) == y@.take(i as int),
        decreases x@.len() - i,
    {
        if x[i] != y[i] {
            assert(x@[i as int] != y@[i as int]);
            return false;
        }
        assert(x@.take(i + 1) == x@.take(i as int).push(x@[i as int]));
        assert(y@.take(i + 1) == y@.take(i as int).push(y@[i as int]));
        i += 1;
    }
    proof {
        assert(x@.take(x@.len() as int) == x@);
        assert(y@.take(y@.len() as int) == y@);
        lemma_encode_injective(a@, b@);
    }
    true
}

/// Whether `a` comes no later than `b` in the order of text.
pub(crate) fn text_at_most(a: &str, b: &str) -> (r: bool)
    ensures
        r == text_le(a@, b@),
{
    let x = a.as_bytes();
    let y = b.as_bytes();
    let mut i: usize = 0;
    assert(x@.skip(0) == x@);
    assert(y@.skip(0) == y@);
    while i < x.len() && i < y.len()
        invariant
            i <= x@.len(),
            i <= y@.len(),
            x@ == encode_utf8(a@),
            y@ == encode_utf8(b@),
            bytes_le(x@, y@) == bytes_le(x@.skip(i as int), y@.skip(i as int)),
        decreases x@.len() - i,
    {
        if x[i] != y[i] {
            return x[i] < y[i];
        }
        assert(x@.skip(i as int).drop_first() == x@.skip(i + 1));
        assert(y@.skip(i as int).drop_first() == y@.skip(i + 1));
        i += 1;
    }
    i == x.len()
}

/// Whether the characters of `s` hold `c`.
pub(crate) fn contains_char(s: &str, c: char) -> (r: bool)
    ensures
        r == s@.contains(c),
{
    let chars = chars_of(s);
    let mut i: usize = 0;
    while i < chars.len()
        invariant
            i <= chars@.len(),
            chars@ == s@,
            forall|j: int| 0 <= j < i ==> s@[j] != c,
        decreases chars@.len() - i,
    {
        if chars[i] == c {
            assert(s@[i as int] == c);
            return true;
        }
        i += 1;
    }
    false
}

/// The part of `s` before the first `c`.
pub(crate) fn text_before(s: &str, c: char) -> (r: String)
    ensures
        r@ == before_first(s@, c),
{
    let chars = chars_of(s);
    let mut i: usize = 0;
    while i < chars.len() && chars[i] != c
        invariant
            i <= chars@.len(),
            chars@ == s@,
            forall|j: int| 0 <= j < i ==> s@[j] != c,
        decreases chars@.len() - i,
    {
        i += 1;
    }
    proof {
        if i < chars@.len() {
            assert(s@[i as int] == c);
            s@.index_of_first_ensures(c);
            assert(s@.take(i as int) == chars@.subrange(0, i as int));
        } else {
            assert(s@ == chars@.subrange(0, i as int));
        }
    }
    string_of(&chars, 0, i)
}

/// The items with `separator` between each two of them.
pub(crate) fn joined(items: &Vec<String>, separator: &str) -> (r: String)
    ensures
        r@ == join(texts(items@), separator@),
{
    let mut out = String::new();
    let mut i: usize = 0;
    let ghost all = texts(items@);
    while i < items.len()
        invariant
            i <= items@.len(),
            all == texts(items@),
            out@ == join(all.take(i as int), separator@),
        decreases items@.len() - i,
    {
        proof {
            let next = all.take(i + 1);
            assert(next.drop_last() == all.take(i as int));
            assert(next.last() == items@[i as int]@);
            assert(i == 0 ==> Seq::<char>::empty() + next[0] == next[0]);
        }
        if i > 0 {
            out.append(separator);
        }
        out.append(items[i].as_str());
        i += 1;
    }
    assert(all.take(all.len() as int) == all);
    out
}

fn same_range(a: &Vec<char>, from: usize, b: &Vec<char>) -> (r: bool)
    requires
        from + b@.len() <= a@.len(),
    ensures
        r == (a@.subrange(from as int, from + b@.len()) == b@),
{
    let ghost part = a@.subrange(from as int, from + b@.len());
    let len: usize = a.len();
    let mut i: usize = 0;
    while i < b.len()
        invariant
            i <= b@.len(),
            from + b@.len() <= a@.len(),
            len == a@.len(),
            part == a@.subrange(from as int, from + b@.len()),
            forall|j: int| 0 <= j < i ==> part[j] == b@[j],
        decreases b@.len() - i,
    {
        assert(part[i as int] == a@[from + i]);
        if a[from + i] != b[i] {
            return false;
        }
        i += 1;
    }
    assert(part == b@);
    true
}

/// Whether `s` ends with `suffix`.
pub(crate) fn ends_with(s: &str, suffix: &str) -> (r: bool)
    ensures
        r == has_suffix(s@, suffix@),
{
    let a = chars_of(s);
    let b = chars_of(suffix);
    if a.len() < b.len() {
        return false;
    }
    let from: usize = a.len() - b.len();
    assert(a@.subrange(from as int, from + b@.len()) == a@.skip(from as int));
    same_range(&a, from, &b)
}

/// What follows `prefix` in `s`, where `s` starts with it.
pub(crate) fn strip_prefix(s: &str, prefix: &str) -> (r: Option<String>)
    ensures
        opt_text(r) == (if has_prefix(s@, prefix@) {
            Some(s@.skip(prefix@.len() as int))
        } else {
            None
        }),
{
    let a = chars_of(s);
    let b = chars_of(prefix);
    if a.len() < b.len() {
        return None;
    }
    assert(a@.subrange(0, b@.len() as int) == a@.take(b@.len() as int));
    if same_range(&a, 0, &b) {
        assert(a@.subrange(b@.len() as int, a@.len() as int) == a@.skip(b@.len() as int));
        Some(string_of(&a, b.len(), a.len()))
    } else {
        None
    }
}

fn blank_char(blank: Blank, c: char) -> (r: bool)
    ensures
        r == is_blank(blank, c),
{
    match blank {
        Blank::Ascii => c == ' ' || c == '\t' || c == '\n' || c == '\x0c' || c == '\r',
        Blank::Unicode => c.is_whitespace(),
    }
}

/// The bounds of the characters from `from` up to `to` once trimmed.
pub(crate) fn trim_range(chars: &Vec<char>, from: usize, to: usize, blank: Blank) -> (r: (
    usize,
    usize,
))
    requires
        from <= to <= chars@.len(),
    ensures
        from <= r.0 <= r.1 <= to,
        chars@.subrange(r.0 as int, r.1 as int) == trim(
            chars@.subrange(from as int, to as int),
            blank,
        ),
{
    let ghost whole = chars@.subrange(from as int, to as int);
    let mut a: usize = from;
    while a < to && blank_char(blank, chars[a])
        invariant
            from <= a <= to <= chars@.len(),
            trim_start(whole, blank) == trim_start(chars@.subrange(a as int, to as int), blank),
        decreases to - a,
    {
        let ghost rest = chars@.subrange(a as int, to as int);
        assert(rest[0] == chars@[a as int]);
        assert(rest.drop_first() == chars@.subrange(a + 1, to as int));
        a += 1;
    }
    let ghost started = chars@.subrange(a as int, to as int);
    proof {
        if a < to {
            assert(started[0] == chars@[a as int]);
        }
        assert(trim_start(whole, blank) == started);
    }
    let mut b: usize = to;
    while a < b && blank_char(blank, chars[b - 1])
        invariant
            from <= a <= b <= to <= chars@.len(),
            trim_end(started, blank) == trim_end(chars@.subrange(a as int, b as int), blank),
        decreases b - a,
    {
        let ghost rest = chars@.subrange(a as int, b as int);
        assert(rest.last() == chars@[b - 1]);
        assert(rest.drop_last() == chars@.subrange(a as int, b - 1));
        b -= 1;
    }
    proof {
        let rest = chars@.subrange(a as int, b as int);
        if a < b {
            assert(rest.last() == chars@[b - 1]);
        }
        assert(trim_end(started, blank) == rest);
    }
    (a, b)
}

/// `s` without leading and trailing white space.
pub(crate) fn trimmed(s: &str) -> (r: String)
    ensures
        r@ == trim(s@, Blank::Unicode),
{
    let chars = chars_of(s);
    let (a, b) = trim_range(&chars, 0, chars.len(), Blank::Unicode);
    assert(chars@.subrange(0, chars@.len() as int) == s@);
    string_of(&chars, a, b)
}

fn digit_of(d: u64) -> (r: char)
    requires
        d < 10,
    ensures
        r == digit_char(d as nat),
{
    (0x30u8 + d as u8) as char
}

/// The decimal form of `n`.
pub(crate) fn decimal_text(n: u64) -> (r: String)
    ensures
        r@ == decimal(n as nat),
    decreases n,
{
    let mut out = if n < 10 {
        String::new()
    } else {
        decimal_text(n / 10)
    };
    out.push(digit_of(n % 10));
    assert(n < 10 ==> out@ == seq![digit_char(n as nat)]);
    out
}

fn hex_digit_of(d: u64) -> (r: char)
    requires
        d < 16,
    ensures
        r == hex_char(d as nat),
{
    if d < 10 {
        (0x30u8 + d as u8) as char
    } else {
        (0x61u8 + (d as u8 - 10)) as char
    }
}

/// The last `width` hexadecimal digits of `n`, in lower case.
pub(crate) fn hex_text(n: u64, width: u8) -> (r: String)
    ensures
        r@ == hex(n as nat, width as nat),
    decreases width,
{
    if width == 0 {
        String::new()
    } else {
        let mut out = hex_text(n / 16, width - 1);
        out.push(hex_digit_of(n % 16));
        out
    }
}

proof fn lemma_decimal_value_grows(s: Seq<char>, i: int)
    requires
        0 <= i <= s.len(),
    ensures
        decimal_value(s.take(i)) <= decimal_value(s),
    decreases s.len() - i,
{
    if i < s.len() {
        lemma_decimal_value_grows(s, i + 1);
        assert(s.take(i + 1).drop_last() == s.take(i));
    } else {
        assert(s.take(i) == s);
    }
}

/// What text denotes as an unsigned number of at most `max`.
pub(crate) fn parse_unsigned(s: &str, max: u64) -> (r: Option<u64>)
    ensures
        r is Some <==> unsigned_value(s@, max as nat) is Some,
        r matches Some(n) ==> n as nat == unsigned_value(s@, max as nat)->0,
{
    let chars = chars_of(s);
    let start: usize = if chars.len() > 0 && chars[0] == '+' {
        1
    } else {
        0
    };
    let ghost digits = chars@.skip(start as int);
    assert(start == 0 ==> digits == s@);
    assert(start == 1 ==> digits == s@.drop_first());
    if start == chars.len() {
        return None;
    }
    let mut value: u64 = 0;
    let mut i: usize = start;
    while i < chars.len()
        invariant
            start <= i <= chars@.len(),
            start < chars@.len(),
            chars@ == s@,
            digits == chars@.skip(start as int),
            (if s@.len() > 0 && s@[0] == '+' {
                s@.drop_first()
            } else {
                s@
            }) == digits,
            value <= max,
            value == decimal_value(digits.take(i - start)),
            all_digits(digits.take(i - start)),
        decreases chars@.len() - i,
    {
        let c = chars[i];
        assert(digits[i - start] == c);
        assert(digits.take(i - start + 1).drop_last() == digits.take(i - start));
        if !('0' <= c && c <= '9') {
            return None;
        }
        let d: u64 = c as u64 - 0x30;
        proof {
            lemma_decimal_value_grows(digits, i - start + 1);
        }
        if d > max || value > (max - d) / 10 {
            return None;
        }
        assert(digits.take(i - start + 1) == digits.take(i - start).push(c));
        value = value * 10 + d;
        i += 1;
    }
    assert(digits.take(digits.len() as int) == digits);
    Some(value)
}

/// `s` with ASCII capital letters turned into small ones.
pub(crate) fn lowered(s: &str) -> (r: String)
    ensures
        r@ == ascii_lower(s@),
{
    let chars = chars_of(s);
    let mut out = String::new();
    let mut i: usize = 0;
    while i < chars.len()
        invariant
            i <= chars@.len(),
            chars@ == s@,
            out@ == ascii_lower(s@).take(i as int),
        decreases chars@.len() - i,
    {
        let c = chars[i];
        let low: char = if 'A' <= c && c <= 'Z' {
            (c as u8 + 0x20) as char
        } else {
            c
        };
        assert(ascii_lower(s@).take(i + 1) == ascii_lower(s@).take(i as int).push(low));
        out.push(low);
        i += 1;
    }
    assert(ascii_lower(s@).take(s@.len() as int) == ascii_lower(s@));
    out
}

proof fn lemma_trim_start(s: Seq<char>, blank: Blank)
    ensures
        trim_start(s, blank).len() == 0 || !is_blank(blank, trim_start(s, blank)[0]),
        forall|c: char| #[trigger] trim_start(s, blank).contains(c) ==> s.contains(c),
    decreases s.len(),
{
    if s.len() > 0 && is_blank(blank, s[0]) {
        lemma_trim_start(s.drop_first(), blank);
        assert forall|c: char| #[trigger] trim_start(s, blank).contains(c) implies s.contains(c) by {
            let i = choose|i: int| 0 <= i < s.drop_first().len() && s.drop_first()[i] == c;
            assert(s[i + 1] == c);
        }
    }
}

proof fn lemma_trim_end(s: Seq<char>, blank: Blank)
    ensures
        trim_end(s, blank).len() == 0 || !is_blank(blank, trim_end(s, blank).last()),
        trim_end(s, blank).len() > 0 ==> s.len() > 0 && trim_end(s, blank)[0] == s[0],
        forall|c: char| #[trigger] trim_end(s, blank).contains(c) ==> s.contains(c),
    decreases s.len(),
{
    if s.len() > 0 && is_blank(blank, s.last()) {
        lemma_trim_end(s.drop_last(), blank);
        assert forall|c: char| #[trigger] trim_end(s, blank).contains(c) implies s.contains(c) by {
            let i = choose|i: int| 0 <= i < s.drop_last().len() && s.drop_last()[i] == c;
            assert(s[i] == c);
        }
    }
}

/// Trimmed text neither starts nor ends with a blank character, holds only
/// characters of the text, and is left alone when it is trimmed again.
pub proof fn trim_is_idempotent(s: Seq<char>, blank: Blank)
    ensures
        trim(s, blank).len() > 0 ==> !is_blank(blank, trim(s, blank)[0]) && !is_blank(
            blank,
            trim(s, blank).last(),
        ),
        forall|c: char| #[trigger] trim(s, blank).contains(c) ==> s.contains(c),
        trim(trim(s, blank), blank) == trim(s, blank),
{
    lemma_trim_start(s, blank);
    lemma_trim_end(trim_start(s, blank), blank);
}

/// No piece of split text holds the separator, and there is always one piece.
pub proof fn split_pieces_hold_no_separator(s: Seq<char>, separator: char)
    ensures
        split_on(s, separator).len() > 0,
        forall|i: int|
            0 <= i < split_on(s, separator).len() ==> !(#[trigger] split_on(
                s,
                separator,
            )[i]).contains(separator),
    decreases s.len(),
{
    if s.len() > 0 {
        let before = split_on(s.drop_last(), separator);
        let pieces = split_on(s, separator);
        split_pieces_hold_no_separator(s.drop_last(), separator);
        assert forall|i: int| 0 <= i < pieces.len() implies !(#[trigger] pieces[i]).contains(
            separator,
        ) by {
            if s.last() == separator {
                if i < before.len() {
                    assert(pieces[i] == before[i]);
                }
            } else if i < before.len() - 1 {
                assert(pieces[i] == before[i]);
            } else {
                let last = before.last();
                assert(!last.contains(separator));
                assert(pieces[i] == last.push(s.last()));
                if pieces[i].contains(separator) {
                    let j = choose|j: int| 0 <= j < pieces[i].len() && pieces[i][j] == separator;
                    assert(last[j] == separator);
                }
            }
        }
    }
}

proof fn lemma_split_without(s: Seq<char>, separator: char)
    requires
        !s.contains(separator),
    ensures
        split_on(s, separator) == seq![s],
    decreases s.len(),
{
    if s.len() > 0 {
        let rest = s.drop_last();
        assert forall|j: int| 0 <= j < rest.len() implies rest[j] != separator by {
            assert(s[j] != separator);
        }
        lemma_split_without(rest, separator);
        assert(s.last() != separator);
        assert(rest.push(s.last()) == s);
        assert(split_on(s, separator) == seq![s]);
    } else {
        assert(s == Seq::<char>::empty());
    }
}

proof fn lemma_split_tail(a: Seq<char>, b: Seq<char>, separator: char)
    requires
        !b.contains(separator),
    ensures
        split_on(a + seq![separator] + b, separator) == split_on(a, separator).push(b),
    decreases b.len(),
{
    let s = a + seq![separator] + b;
    if b.len() == 0 {
        assert(s.drop_last() == a);
        assert(b == Seq::<char>::empty());
    } else {
        let rest = b.drop_last();
        assert forall|j: int| 0 <= j < rest.len() implies rest[j] != separator by {
            assert(b[j] != separator);
        }
        lemma_split_tail(a, rest, separator);
        assert(s.drop_last() == a + seq![separator] + rest);
        assert(b.contains(b.last()));
        assert(s.last() == b.last());
        assert(rest.push(b.last()) == b);
        assert(split_on(a, separator).push(rest).drop_last() == split_on(a, separator));
    }
}

/// Splitting undoes joining: the items that were joined with a separator which
/// none of them holds come back.
pub proof fn split_undoes_join(items: Seq<Seq<char>>, separator: char)
    requires
        items.len() > 0,
        forall|i: int| 0 <= i < items.len() ==> !(#[trigger] items[i]).contains(separator),
    ensures
        split_on(join(items, seq![separator]), separator) == items,
    decreases items.len(),
{
    if items.len() == 1 {
        lemma_split_without(items[0], separator);
        assert(items == seq![items[0]]);
    } else {
        let before = items.drop_last();
        assert forall|i: int| 0 <= i < before.len() implies !(#[trigger] before[i]).contains(
            separator,
        ) by {
            assert(before[i] == items[i]);
        }
        split_undoes_join(before, separator);
        lemma_split_tail(join(before, seq![separator]), items.last(), separator);
        assert(before.push(items.last()) == items);
    }
}

proof fn lemma_trim_start_at(s: Seq<char>, blank: Blank) -> (a: int)
    ensures
        0 <= a <= s.len(),
        trim_start(s, blank) == s.skip(a),
        forall|i: int| 0 <= i < a ==> is_blank(blank, #[trigger] s[i]),
        a < s.len() ==> !is_blank(blank, s[a]),
    decreases s.len(),
{
    if s.len() > 0 && is_blank(blank, s[0]) {
        let rest = s.drop_first();
        let b = lemma_trim_start_at(rest, blank);
        assert(rest.skip(b) == s.skip(b + 1));
        assert forall|i: int| 0 <= i < b + 1 implies is_blank(blank, #[trigger] s[i]) by {
            if i > 0 {
                assert(rest[i - 1] == s[i]);
            }
        }
        if b < rest.len() {
            assert(rest[b] == s[b + 1]);
        }
        b + 1
    } else {
        assert(s.skip(0) == s);
        0
    }
}

proof fn lemma_trim_end_at(s: Seq<char>, blank: Blank) -> (b: int)
    ensures
        0 <= b <= s.len(),
        trim_end(s, blank) == s.take(b),
        forall|i: int| b <= i < s.len() ==> is_blank(blank, #[trigger] s[i]),
        b > 0 ==> !is_blank(blank, s[b - 1]),
    decreases s.len(),
{
    if s.len() > 0 && is_blank(blank, s.last()) {
        let rest = s.drop_last();
        let b = lemma_trim_end_at(rest, blank);
        assert(rest.take(b) == s.take(b));
        assert forall|i: int| b <= i < s.len() implies is_blank(blank, #[trigger] s[i]) by {
            if i < rest.len() {
                assert(rest[i] == s[i]);
            }
        }
        b
    } else {
        assert(s.take(s.len() as int) == s);
        s.len() as int
    }
}

proof fn lemma_trim_at(s: Seq<char>, blank: Blank) -> (r: (int, int))
    ensures
        0 <= r.0 <= r.1 <= s.len(),
        trim(s, blank) == s.subrange(r.0, r.1),
        forall|i: int|
            (0 <= i < r.0 || r.1 <= i < s.len()) ==> is_blank(blank, #[trigger] s[i]),
        r.0 < r.1 ==> !is_blank(blank, s[r.0]) && !is_blank(blank, s[r.1 - 1]),
{
    let a = lemma_trim_start_at(s, blank);
    let rest = s.skip(a);
    let b = lemma_trim_end_at(rest, blank);
    assert(rest.take(b) == s.subrange(a, a + b));
    assert forall|i: int| (0 <= i < a || a + b <= i < s.len()) implies is_blank(
        blank,
        #[trigger] s[i],
    ) by {
        if i >= a {
            assert(rest[i - a] == s[i]);
        }
    }
    if b > 0 {
        assert(rest[b - 1] == s[a + b - 1]);
        assert(rest[0] == s[a]);
    }
    (a, a + b)
}

/// Trimming ASCII white space takes spaces, tabs, line feeds, form feeds and
/// carriage returns off both ends, all of them and nothing else, and leaves what is
/// between them alone.
pub proof fn ascii_trim_takes_only_the_ends(s: Seq<char>) -> (r: (int, int))
    ensures
        0 <= r.0 <= r.1 <= s.len(),
        trim(s, Blank::Ascii) == s.subrange(r.0, r.1),
        forall|i: int|
            (0 <= i < r.0 || r.1 <= i < s.len()) ==> {
                ||| #[trigger] s[i] == ' '
                ||| s[i] == '\t'
                ||| s[i] == '\n'
                ||| s[i] == '\x0c'
                ||| s[i] == '\r'
            },
        r.0 < r.1 ==> {
            let first = s[r.0];
            first != ' ' && first != '\t' && first != '\n' && first != '\x0c' && first != '\r'
        },
        r.0 < r.1 ==> {
            let last = s[r.1 - 1];
            last != ' ' && last != '\t' && last != '\n' && last != '\x0c' && last != '\r'
        },
{
    lemma_trim_at(s, Blank::Ascii)
}

/// Trimming white space takes white space off both ends, all of it and nothing
/// else, and leaves what is between alone.
pub proof fn trim_takes_only_the_ends(s: Seq<char>) -> (r: (int, int))
    ensures
        0 <= r.0 <= r.1 <= s.len(),
        trim(s, Blank::Unicode) == s.subrange(r.0, r.1),
        forall|i: int| (0 <= i < r.0 || r.1 <= i < s.len()) ==> white_space(#[trigger] s[i]),
        r.0 < r.1 ==> !white_space(s[r.0]) && !white_space(s[r.1 - 1]),
{
    lemma_trim_at(s, Blank::Unicode)
}

/// Joining the pieces of split text gives the text back.
pub proof fn join_undoes_split(s: Seq<char>, separator: char)
    ensures
        join(split_on(s, separator), seq![separator]) == s,
    decreases s.len(),
{
    let sep = seq![separator];
    if s.len() == 0 {
        assert(s == Seq::<char>::empty());
    } else {
        let rest = s.drop_last();
        let before = split_on(rest, separator);
        let pieces = split_on(s, separator);
        join_undoes_split(rest, separator);
        split_pieces_hold_no_separator(rest, separator);
        if s.last() == separator {
            assert(pieces.drop_last() == before);
            assert(join(before, sep) + sep + Seq::<char>::empty() == s);
        } else {
            assert(pieces.drop_last() == before.drop_last());
            assert(before == before.drop_last().push(before.last()));
            if before.len() == 1 {
                assert(pieces[0] == before[0].push(s.last()));
                assert(before[0].push(s.last()) == s);
            } else {
                let head = join(before.drop_last(), sep);
                assert(join(before, sep) == head + sep + before.last());
                assert(rest == head + sep + before.last());
                assert(head + sep + before.last().push(s.last()) == rest.push(s.last()));
                assert(rest.push(s.last()) == s);
            }
        }
    }
}

/// Joining puts the separator between each two items and nowhere else: one item
/// stands alone, and each further one follows a separator.
pub proof fn join_puts_separators_between(
    items: Seq<Seq<char>>,
    item: Seq<char>,
    separator: Seq<char>,
)
    ensures
        join(seq![item], separator) == item,
        items.len() > 0 ==> join(items.push(item), separator) == join(items, separator) + separator
            + item,
{
    assert(items.push(item).drop_last() == items);
}

/// What stands before the first `c` holds no `c`, and is all of the text or is
/// followed by a `c`.
pub proof fn text_before_stops_at_the_first(s: Seq<char>, c: char)
    ensures
        !before_first(s, c).contains(c),
        s == before_first(s, c) || exists|rest: Seq<char>|
            s == before_first(s, c) + #[trigger] seq![c].add(rest),
{
    if s.contains(c) {
        s.index_of_first_ensures(c);
        let i = s.index_of_first(c)->0;
        let head = s.take(i);
        if head.contains(c) {
            let j = choose|j: int| 0 <= j < head.len() && head[j] == c;
            assert(s[j] == c);
        }
        assert(s == head + seq![c].add(s.skip(i + 1)));
    }
}

/// Text has a suffix if something and the suffix make it up, and a prefix if the
/// prefix and something do.
pub proof fn affixes_make_up_the_text(head: Seq<char>, tail: Seq<char>, s: Seq<char>)
    ensures
        has_suffix(head + tail, tail),
        has_prefix(head + tail, head),
        has_suffix(s, tail) ==> s == s.take(s.len() - tail.len()) + tail,
        has_prefix(s, head) ==> s == head + s.skip(head.len() as int),
{
    assert((head + tail).skip(head.len() as int) == tail);
    assert((head + tail).take(head.len() as int) == head);
    if has_suffix(s, tail) {
        assert(s == s.take(s.len() - tail.len()) + s.skip(s.len() - tail.len()));
    }
    if has_prefix(s, head) {
        assert(s == s.take(head.len() as int) + s.skip(head.len() as int));
    }
}

/// The decimal form of a number is that of its tens with the digit of its ones
/// behind it, and denotes the number.
pub proof fn decimal_form_denotes_its_number(n: nat)
    ensures
        n < 10 ==> decimal(n).len() == 1 && decimal(n)[0] as int == '0' as int + n,
        n >= 10 ==> decimal(n).drop_last() == decimal(n / 10) && decimal(n).last() as int == '0'
            as int + n % 10,
        decimal(n).len() > 0,
        all_digits(decimal(n)),
        decimal_value(decimal(n)) == n,
    decreases n,
{
    if n >= 10 {
        decimal_form_denotes_its_number(n / 10);
        assert(decimal(n).drop_last() == decimal(n / 10));
        assert(decimal_value(decimal(n)) == 10 * (n / 10) + n % 10);
    } else {
        assert(decimal(n).drop_last() == Seq::<char>::empty());
        assert(decimal_value(Seq::<char>::empty()) == 0);
    }
}

/// A number in decimal form is read as itself if it is small enough, with a plus
/// sign in front or without, and with zeros in front or without.
pub proof fn numbers_are_read_as_written(n: nat, max: nat, s: Seq<char>)
    ensures
        unsigned_value(decimal(n), max) == (if n <= max {
            Some(n)
        } else {
            None
        }),
        unsigned_value(seq!['+'] + decimal(n), max) == unsigned_value(decimal(n), max),
        s.len() > 0 && all_digits(s) ==> unsigned_value(seq!['0'] + s, max) == unsigned_value(
            s,
            max,
        ),
{
    decimal_form_denotes_its_number(n);
    let text = decimal(n);
    assert(is_digit(text[0]));
    let signed = seq!['+'] + text;
    assert(signed[0] == '+');
    assert(signed.drop_first() == text);
    if s.len() > 0 && all_digits(s) {
        let padded = seq!['0'] + s;
        assert(is_digit(s[0]));
        assert forall|i: int| 0 <= i < padded.len() implies is_digit(#[trigger] padded[i]) by {
            if i > 0 {
                assert(padded[i] == s[i - 1]);
            }
        }
        lemma_zero_in_front(s);
    }
}

proof fn lemma_zero_in_front(s: Seq<char>)
    ensures
        decimal_value(seq!['0'] + s) == decimal_value(s),
    decreases s.len(),
{
    let padded = seq!['0'] + s;
    if s.len() == 0 {
        assert(padded.drop_last() == Seq::<char>::empty());
        assert(decimal_value(padded.drop_last()) == 0);
    } else {
        lemma_zero_in_front(s.drop_last());
        assert(padded.drop_last() == seq!['0'] + s.drop_last());
    }
}

/// Text that holds anything but digits behind an optional plus sign, or no digit,
/// is no number.
pub proof fn other_text_is_no_number(s: Seq<char>, max: nat, i: int)
    requires
        s.len() == 0 || (s.len() == 1 && s[0] == '+') || (0 <= i < s.len() && !('0' <= s[i]
            <= '9') && (i > 0 || s[i] != '+')),
    ensures
        unsigned_value(s, max) is None,
{
    if s.len() > 0 && s[0] == '+' {
        let digits = s.drop_first();
        if i > 0 && i < s.len() {
            assert(digits[i - 1] == s[i]);
        }
    }
}

/// The number that digits denote grows by a place with each digit behind them.
pub proof fn digits_count_by_place(s: Seq<char>, c: char)
    requires
        '0' <= c <= '9',
    ensures
        decimal_value(s.push(c)) == 10 * decimal_value(s) + (c as int - '0' as int),
        decimal_value(Seq::<char>::empty()) == 0,
{
    assert(s.push(c).drop_last() == s);
}

/// The hexadecimal form of a number has the asked width, and its last digit is
/// that of the number's remainder by sixteen.
pub proof fn hexadecimal_form_by_digits(n: nat, width: nat, d: nat)
    requires
        d < 16,
    ensures
        hex(n, width).len() == width,
        hex(16 * n + d, width + 1).drop_last() == hex(n, width),
        hex(16 * n + d, width + 1).last() == "0123456789abcdef"@[d as int],
    decreases width,
{
    reveal_strlit("0123456789abcdef");
    assert((16 * n + d) / 16 == n);
    assert((16 * n + d) % 16 == d);
    assert(hex(16 * n + d, width + 1).drop_last() == hex(n, width));
    if width > 0 {
        hexadecimal_form_by_digits(n / 16, (width - 1) as nat, 0);
    }
}

/// Lowering changes the ASCII capital letters to the small ones, and nothing else.
pub proof fn lowering_changes_capitals_only(s: Seq<char>, i: int)
    requires
        0 <= i < s.len(),
    ensures
        ascii_lower(s).len() == s.len(),
        'A' <= s[i] <= 'Z' ==> ascii_lower(s)[i] as int == s[i] as int + ('a' as int - 'A' as int),
        !('A' <= s[i] <= 'Z') ==> ascii_lower(s)[i] == s[i],
{
}

/// The order of bytes is that of the first place at which they differ; bytes come
/// no later than what they are the start of.
pub proof fn bytes_are_ordered_by_their_first_difference(a: Seq<u8>, b: Seq<u8>, k: int)
    requires
        0 <= k <= a.len(),
        k <= b.len(),
        a.take(k) == b.take(k),
    ensures
        k < a.len() && k < b.len() && a[k] != b[k] ==> bytes_le(a, b) == (a[k] < b[k]),
        k == a.len() ==> bytes_le(a, b),
        k == b.len() && k < a.len() ==> !bytes_le(a, b),
    decreases k,
{
    if k > 0 {
        assert(a[0] == a.take(k)[0]);
        assert(b[0] == b.take(k)[0]);
        let x = a.drop_first();
        let y = b.drop_first();
        assert(x.take(k - 1) == a.take(k).drop_first());
        assert(y.take(k - 1) == b.take(k).drop_first());
        bytes_are_ordered_by_their_first_difference(x, y, k - 1);
    }
}

/// The texts of strings are the strings, one for one.
pub proof fn texts_are_the_strings(strings: Seq<String>, i: int)
    requires
        0 <= i < strings.len(),
    ensures
        texts(strings).len() == strings.len(),
        texts(strings)[i] == strings[i]@,
        opt_text(Some(strings[i])) == Some(strings[i]@),
        opt_text(None) == None::<Seq<char>>,
{
}

} // verus!
