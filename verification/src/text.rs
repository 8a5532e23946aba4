//! Strings as sequences of characters: cutting, trimming, joining, numbers.

use vstd::prelude::*;
use vstd::slice::{slice_subrange, slice_to_vec};
use vstd::utf8::is_ascii_chars;

verus! {

// ---------------------------------------------------------------------------
// Between strings and characters
// ---------------------------------------------------------------------------

/// `String::push` appends one character.
pub assume_specification[ String::push ](s: &mut String, c: char)
    ensures
        final(s)@ == old(s)@.push(c),
;

/// The characters of a string.
pub fn chars_of(s: &str) -> (r: Vec<char>)
    ensures
        r@ == s@,
{
    let mut out: Vec<char> = Vec::new();
    for c in it: s.chars()
        invariant
            it.seq() == s@,
            out@ == s@.take(it.index()),
    {
        out.push(c);
        assert(s@.take(it.index() + 1) =~= s@.take(it.index()).push(c));
    }
    assert(s@.take(s@.len() as int) =~= s@);
    out
}

/// The string made of the given characters.
pub fn text_of(chars: &[char]) -> (r: String)
    ensures
        r@ == chars@,
{
    let mut out = String::new();
    for i in 0..chars.len()
        invariant
            out@ == chars@.take(i as int),
    {
        out.push(chars[i]);
        assert(chars@.take(i + 1) =~= chars@.take(i as int).push(chars@[i as int]));
    }
    assert(chars@.take(chars@.len() as int) =~= chars@);
    out
}

/// Whether two strings hold the same characters.
pub fn same_text(a: &str, b: &str) -> (r: bool)
    ensures
        r == (a@ == b@),
{
    let x = a.to_string();
    let y = b.to_string();
    x == y
}

/// The two strings one after the other.
pub fn joined(a: &str, b: &str) -> (r: String)
    ensures
        r@ == a@ + b@,
{
    let mut out = a.to_string();
    out.append(b);
    out
}

// ---------------------------------------------------------------------------
// Searching and cutting
// ---------------------------------------------------------------------------

/// The position of the first `c` in `s`, or the length of `s` without one.
pub open spec fn find_char(s: Seq<char>, c: char) -> int
    decreases s.len(),
{
    if s.len() == 0 || s[0] == c {
        0
    } else {
        1 + find_char(s.drop_first(), c)
    }
}

/// `find_char` is the only position with nothing equal to `c` before it and
/// with `c`, or the end, at it.
pub proof fn lemma_find_char(s: Seq<char>, c: char, i: int)
    requires
        0 <= i <= s.len(),
        forall|j: int| 0 <= j < i ==> s[j] != c,
        i < s.len() ==> s[i] == c,
    ensures
        find_char(s, c) == i,
    decreases s.len(),
{
    if i > 0 {
        let rest = s.drop_first();
        assert forall|j: int| 0 <= j < i - 1 implies rest[j] != c by {
            assert(rest[j] == s[j + 1]);
        }
        lemma_find_char(rest, c, i - 1);
    }
}

/// The position of the first `c` in `s`, or the length of `s` without one.
pub fn position(s: &[char], c: char) -> (r: usize)
    ensures
        r == find_char(s@, c),
        r <= s@.len(),
        r < s@.len() ==> s@[r as int] == c,
{
    let mut i: usize = 0;
    while i < s.len() && s[i] != c
        invariant
            i <= s@.len(),
            forall|j: int| 0 <= j < i ==> s@[j] != c,
        decreases s@.len() - i,
    {
        i = i + 1;
    }
    proof {
        lemma_find_char(s@, c, i as int);
    }
    i
}

/// Whether `s` begins with `prefix`.
pub open spec fn begins(s: Seq<char>, prefix: Seq<char>) -> bool {
    s.len() >= prefix.len() && s.take(prefix.len() as int) == prefix
}

/// Whether `s` begins with `prefix`.
pub fn starts_with(s: &[char], prefix: &[char]) -> (r: bool)
    ensures
        r == begins(s@, prefix@),
{
    if s.len() < prefix.len() {
        return false;
    }
    for i in 0..prefix.len()
        invariant
            s@.len() >= prefix@.len(),
            forall|j: int| 0 <= j < i ==> s@[j] == prefix@[j],
    {
        if s[i] != prefix[i] {
            assert(s@.take(prefix@.len() as int)[i as int] != prefix@[i as int]);
            return false;
        }
    }
    assert(s@.take(prefix@.len() as int) =~= prefix@);
    true
}

/// The position at which `pattern` first occurs in `s`.
pub open spec fn find_text(s: Seq<char>, pattern: Seq<char>) -> Option<int>
    decreases s.len(),
{
    if begins(s, pattern) {
        Some(0)
    } else if s.len() == 0 {
        None
    } else {
        match find_text(s.drop_first(), pattern) {
            Some(i) => Some(i + 1),
            None => None,
        }
    }
}

/// A position that `find_text` gives lies in the text and begins the pattern.
pub proof fn lemma_find_text(s: Seq<char>, pattern: Seq<char>)
    ensures
        find_text(s, pattern) matches Some(i) ==> {
            &&& 0 <= i
            &&& i + pattern.len() <= s.len()
            &&& s.subrange(i, i + pattern.len()) == pattern
        },
    decreases s.len(),
{
    if !begins(s, pattern) && s.len() > 0 {
        let rest = s.drop_first();
        lemma_find_text(rest, pattern);
        if let Some(i) = find_text(rest, pattern) {
            assert(s.subrange(i + 1, i + 1 + pattern.len()) =~= rest.subrange(
                i,
                i + pattern.len(),
            ));
        }
    } else if begins(s, pattern) {
        assert(s.subrange(0, pattern.len() as int) =~= s.take(pattern.len() as int));
    }
}

/// Skipping one character at a time reaches the first occurrence.
proof fn lemma_find_text_skip(s: Seq<char>, pattern: Seq<char>, i: int)
    requires
        0 <= i <= s.len(),
        forall|j: int| 0 <= j < i ==> !begins(#[trigger] s.skip(j), pattern),
    ensures
        find_text(s, pattern) == (match find_text(s.skip(i), pattern) {
            Some(k) => Some(k + i),
            None => None,
        }),
    decreases i,
{
    if i == 0 {
        assert(s.skip(0) =~= s);
    } else {
        assert(s.skip(0) =~= s);
        let rest = s.drop_first();
        assert forall|j: int| 0 <= j < i - 1 implies !begins(#[trigger] rest.skip(j), pattern) by {
            assert(rest.skip(j) =~= s.skip(j + 1));
        }
        lemma_find_text_skip(rest, pattern, i - 1);
        assert(rest.skip(i - 1) =~= s.skip(i));
    }
}

/// The position at which `pattern` first occurs in `s`.
pub fn find(s: &[char], pattern: &[char]) -> (r: Option<usize>)
    ensures
        match r {
            Some(i) => find_text(s@, pattern@) == Some(i as int) && i + pattern@.len() <= s@.len(),
            None => find_text(s@, pattern@) is None,
        },
{
    let mut i: usize = 0;
    while i < s.len()
        invariant
            i <= s@.len(),
            forall|j: int| 0 <= j < i ==> !begins(#[trigger] s@.skip(j), pattern@),
        decreases s@.len() - i,
    {
        let rest = slice_subrange(s, i, s.len());
        assert(rest@ =~= s@.skip(i as int));
        if starts_with(rest, pattern) {
            proof {
                lemma_find_text_skip(s@, pattern@, i as int);
                lemma_find_text(s@, pattern@);
            }
            return Some(i);
        }
        i = i + 1;
    }
    proof {
        lemma_find_text_skip(s@, pattern@, i as int);
        lemma_find_text(s@, pattern@);
    }
    if pattern.len() == 0 {
        assert(s@.skip(i as int).take(0) =~= pattern@);
        Some(i)
    } else {
        None
    }
}

/// The pieces of `s` between the separators.
pub open spec fn pieces(s: Seq<char>, sep: char) -> Seq<Seq<char>>
    decreases s.len(),
{
    let i = find_char(s, sep);
    if 0 <= i < s.len() {
        seq![s.take(i)] + pieces(s.skip(i + 1), sep)
    } else {
        seq![s]
    }
}

/// `find_char` stays within the text.
pub proof fn lemma_find_char_bounds(s: Seq<char>, c: char)
    ensures
        0 <= find_char(s, c) <= s.len(),
        find_char(s, c) < s.len() ==> s[find_char(s, c)] == c,
        forall|j: int| 0 <= j < find_char(s, c) ==> s[j] != c,
    decreases s.len(),
{
    if s.len() > 0 && s[0] != c {
        let rest = s.drop_first();
        lemma_find_char_bounds(rest, c);
        assert forall|j: int| 0 <= j < find_char(s, c) implies s[j] != c by {
            if j > 0 {
                assert(rest[j - 1] == s[j]);
            }
        }
    }
}

/// The views of a list of strings.
pub open spec fn texts(v: Seq<String>) -> Seq<Seq<char>> {
    v.map_values(|s: String| s@)
}

/// The views of a list of character lists.
pub open spec fn lists(v: Seq<Vec<char>>) -> Seq<Seq<char>> {
    v.map_values(|x: Vec<char>| x@)
}

/// The pieces of `s` between the separators.
pub fn split(s: &[char], sep: char) -> (r: Vec<Vec<char>>)
    ensures
        lists(r@) == pieces(s@, sep),
{
    let mut out: Vec<Vec<char>> = Vec::new();
    let mut start: usize = 0;
    assert(s@.skip(0) =~= s@);
    assert(lists(out@) + pieces(s@, sep) =~= pieces(s@, sep));
    loop
        invariant
            start <= s@.len(),
            lists(out@) + pieces(s@.skip(start as int), sep) == pieces(s@, sep),
        decreases s@.len() - start,
    {
        let rest = slice_subrange(s, start, s.len());
        assert(rest@ =~= s@.skip(start as int));
        let i = position(rest, sep);
        let piece = slice_to_vec(slice_subrange(rest, 0, i));
        assert(piece@ =~= rest@.take(i as int));
        let ghost before = lists(out@);
        out.push(piece);
        assert(lists(out@) =~= before.push(rest@.take(i as int)));
        if i == rest.len() {
            assert(rest@.take(i as int) =~= rest@);
            assert(lists(out@) =~= before + seq![rest@]);
            return out;
        }
        start = start + i + 1;
        assert(s@.skip(start as int) =~= rest@.skip(i + 1));
        assert(lists(out@) + pieces(s@.skip(start as int), sep) =~= before + (seq![
            rest@.take(i as int),
        ] + pieces(rest@.skip(i + 1), sep)));
    }
}

/// `s` without one carriage return at its end.
pub open spec fn without_return(s: Seq<char>) -> Seq<char> {
    if s.len() > 0 && s.last() == '\r' {
        s.drop_last()
    } else {
        s
    }
}

/// The lines of `s`: each ends before a newline, or before a carriage return
/// and a newline; text after the last newline is a line of its own.
pub open spec fn lines(s: Seq<char>) -> Seq<Seq<char>>
    decreases s.len(),
{
    let i = find_char(s, '\n');
    if s.len() == 0 {
        seq![]
    } else if 0 <= i < s.len() {
        seq![without_return(s.take(i))] + lines(s.skip(i + 1))
    } else {
        seq![s]
    }
}

/// The lines of `s`.
pub fn split_lines(s: &[char]) -> (r: Vec<Vec<char>>)
    ensures
        lists(r@) == lines(s@),
{
    let mut out: Vec<Vec<char>> = Vec::new();
    let mut start: usize = 0;
    assert(s@.skip(0) =~= s@);
    assert(lists(out@) + lines(s@) =~= lines(s@));
    while start < s.len()
        invariant
            start <= s@.len(),
            lists(out@) + lines(s@.skip(start as int)) == lines(s@),
        decreases s@.len() - start,
    {
        let rest = slice_subrange(s, start, s.len());
        assert(rest@ =~= s@.skip(start as int));
        let i = position(rest, '\n');
        let ghost before = lists(out@);
        if i == rest.len() {
            out.push(slice_to_vec(rest));
            assert(lists(out@) =~= before + seq![rest@]);
            return out;
        }
        let cut = slice_subrange(rest, 0, i);
        assert(cut@ =~= rest@.take(i as int));
        let line = if i > 0 && cut[i - 1] == '\r' {
            slice_to_vec(slice_subrange(cut, 0, i - 1))
        } else {
            slice_to_vec(cut)
        };
        assert(line@ =~= without_return(rest@.take(i as int)));
        out.push(line);
        assert(lists(out@) =~= before.push(line@));
        start = start + i + 1;
        assert(s@.skip(start as int) =~= rest@.skip(i + 1));
        assert(lists(out@) + lines(s@.skip(start as int)) =~= before + (seq![line@] + lines(
            rest@.skip(i + 1),
        )));
    }
    assert(s@.skip(start as int).len() == 0);
    assert(lists(out@) + lines(s@.skip(start as int)) =~= lists(out@));
    out
}

/// `s` without any number of copies of `prefix` at its start.
pub open spec fn without_prefixes(s: Seq<char>, prefix: Seq<char>) -> Seq<char>
    decreases s.len(),
{
    if prefix.len() > 0 && begins(s, prefix) {
        without_prefixes(s.skip(prefix.len() as int), prefix)
    } else {
        s
    }
}

/// `s` without any number of copies of `prefix` at its start.
pub fn strip_prefixes(s: &[char], prefix: &[char]) -> (r: Vec<char>)
    requires
        prefix@.len() > 0,
    ensures
        r@ == without_prefixes(s@, prefix@),
{
    let mut start: usize = 0;
    assert(s@.skip(0) =~= s@);
    loop
        invariant
            prefix@.len() > 0,
            start <= s@.len(),
            without_prefixes(s@.skip(start as int), prefix@) == without_prefixes(s@, prefix@),
        decreases s@.len() - start,
    {
        let rest = slice_subrange(s, start, s.len());
        assert(rest@ =~= s@.skip(start as int));
        if !starts_with(rest, prefix) {
            return slice_to_vec(rest);
        }
        start = start + prefix.len();
        assert(s@.skip(start as int) =~= rest@.skip(prefix@.len() as int));
    }
}

// ---------------------------------------------------------------------------
// White space and case
// ---------------------------------------------------------------------------

/// Whether `c` has the Unicode property `White_Space`.
pub open spec fn white_space(c: char) -> bool {
    let u = c as u32;
    ||| 0x9 <= u <= 0xd
    ||| u == 0x20 || u == 0x85 || u == 0xa0 || u == 0x1680
    ||| 0x2000 <= u <= 0x200a
    ||| u == 0x2028 || u == 0x2029 || u == 0x202f || u == 0x205f || u == 0x3000
}

/// Whether `c` has the Unicode property `White_Space`.
pub fn is_white_space(c: char) -> (r: bool)
    ensures
        r == white_space(c),
{
    let u: u32 = c as u32;
    (0x9 <= u && u <= 0xd) || u == 0x20 || u == 0x85 || u == 0xa0 || u == 0x1680 || (0x2000 <= u
        && u <= 0x200a) || u == 0x2028 || u == 0x2029 || u == 0x202f || u == 0x205f || u == 0x3000
}

/// `s` without the white space at its start.
pub open spec fn trim_start(s: Seq<char>) -> Seq<char>
    decreases s.len(),
{
    if s.len() > 0 && white_space(s[0]) {
        trim_start(s.drop_first())
    } else {
        s
    }
}

/// `s` without the white space at its end.
pub open spec fn trim_end(s: Seq<char>) -> Seq<char>
    decreases s.len(),
{
    if s.len() > 0 && white_space(s.last()) {
        trim_end(s.drop_last())
    } else {
        s
    }
}

/// `s` without the white space at both ends.
pub open spec fn trimmed(s: Seq<char>) -> Seq<char> {
    trim_end(trim_start(s))
}

/// `s` without the white space at both ends.
pub fn trim(s: &[char]) -> (r: Vec<char>)
    ensures
        r@ == trimmed(s@),
{
    let mut start: usize = 0;
    assert(s@.skip(0) =~= s@);
    while start < s.len() && is_white_space(s[start])
        invariant
            start <= s@.len(),
            trim_start(s@.skip(start as int)) == trim_start(s@),
        decreases s@.len() - start,
    {
        assert(s@.skip(start as int).drop_first() =~= s@.skip(start + 1));
        start = start + 1;
    }
    let ghost rest = s@.skip(start as int);
    assert(trim_start(s@) == rest);
    let mut end: usize = s.len();
    assert(s@.subrange(start as int, end as int) =~= rest);
    while end > start && is_white_space(s[end - 1])
        invariant
            start <= end <= s@.len(),
            trim_end(s@.subrange(start as int, end as int)) == trim_end(rest),
        decreases end,
    {
        assert(s@.subrange(start as int, end as int).drop_last() =~= s@.subrange(
            start as int,
            end - 1,
        ));
        end = end - 1;
    }
    slice_to_vec(slice_subrange(s, start, end))
}

/// `c`, as a small letter where it is an ASCII capital.
pub open spec fn ascii_lower(c: char) -> char {
    if 'A' <= c <= 'Z' {
        ((c as u32 + 32) as u32) as char
    } else {
        c
    }
}

/// What `str::to_lowercase` makes of a string that is not all ASCII.
pub uninterp spec fn unicode_lowercase(s: Seq<char>) -> Seq<char>;

/// `s` in small letters.
pub open spec fn lowercase(s: Seq<char>) -> Seq<char> {
    if is_ascii_chars(s) {
        s.map_values(|c: char| ascii_lower(c))
    } else {
        unicode_lowercase(s)
    }
}

/// Calls `str::to_lowercase`. An ASCII string has its capitals replaced one
/// for one; of any other string the result is only named, since Unicode's
/// tables decide it.
#[verifier::external_body]
pub(crate) fn to_lowercase(s: &str) -> (r: String)
    ensures
        is_ascii_chars(s@) ==> r@ == s@.map_values(|c: char| ascii_lower(c)),
        !is_ascii_chars(s@) ==> r@ == unicode_lowercase(s@),
{
    s.to_lowercase()
}

// ---------------------------------------------------------------------------
// Joining
// ---------------------------------------------------------------------------

/// The items of `list` with `sep` between neighbours.
pub open spec fn join(list: Seq<Seq<char>>, sep: Seq<char>) -> Seq<char>
    decreases list.len(),
{
    if list.len() == 0 {
        seq![]
    } else if list.len() == 1 {
        list[0]
    } else {
        join(list.drop_last(), sep) + sep + list.last()
    }
}

/// The strings of `list` with `sep` between neighbours.
pub fn join_all(list: &Vec<String>, sep: &str) -> (r: String)
    ensures
        r@ == join(texts(list@), sep@),
{
    let mut out = String::new();
    assert(texts(list@).take(0) =~= Seq::empty());
    for i in 0..list.len()
        invariant
            out@ == join(texts(list@).take(i as int), sep@),
    {
        if i > 0 {
            out.append(sep);
        }
        out.append(list[i].as_str());
        let ghost shown = texts(list@).take(i + 1);
        assert(shown.drop_last() =~= texts(list@).take(i as int));
        assert(shown.last() == list@[i as int]@);
        if i == 0 {
            assert(out@ =~= list@[0]@);
        }
    }
    assert(texts(list@).take(list@.len() as int) =~= texts(list@));
    out
}

// ---------------------------------------------------------------------------
// Numbers
// ---------------------------------------------------------------------------

/// The decimal digit for `d`.
pub open spec fn digit_char(d: int) -> char {
    ((48 + d) as u32) as char
}

/// `n` in decimal, without leading zeros.
pub open spec fn decimal(n: nat) -> Seq<char>
    decreases n,
{
    if n < 10 {
        seq![digit_char(n as int)]
    } else {
        decimal(n / 10).push(digit_char((n % 10) as int))
    }
}

/// The character for a digit below ten.
fn digit_of(d: u64) -> (r: char)
    requires
        d < 10,
    ensures
        r == digit_char(d as int),
{
    let b: u8 = 48u8 + d as u8;
    b as char
}

/// `n` in decimal.
pub fn to_decimal(n: u64) -> (r: String)
    ensures
        r@ == decimal(n as nat),
    decreases n,
{
    let mut out = if n < 10 {
        String::new()
    } else {
        to_decimal(n / 10)
    };
    out.push(digit_of(n % 10));
    assert(out@ =~= decimal(n as nat));
    out
}

/// Whether `c` is a decimal digit.
pub open spec fn is_digit(c: char) -> bool {
    '0' <= c <= '9'
}

/// The number that a row of digits writes.
pub open spec fn digits_value(s: Seq<char>) -> int
    decreases s.len(),
{
    if s.len() == 0 {
        0
    } else {
        digits_value(s.drop_last()) * 10 + (s.last() as u32 - 48)
    }
}

/// `s` without one plus sign at its start.
pub open spec fn without_plus(s: Seq<char>) -> Seq<char> {
    if s.len() > 0 && s[0] == '+' {
        s.drop_first()
    } else {
        s
    }
}

/// The number written in `s`: an optional plus sign, then one or more digits,
/// for a number of at most `max`.
pub open spec fn unsigned(s: Seq<char>, max: int) -> Option<int> {
    let d = without_plus(s);
    if d.len() > 0 && (forall|i: int| 0 <= i < d.len() ==> is_digit(#[trigger] d[i]))
        && digits_value(d) <= max {
        Some(digits_value(d))
    } else {
        None
    }
}

proof fn lemma_digits_grow(s: Seq<char>, i: int)
    requires
        0 <= i <= s.len(),
        forall|k: int| 0 <= k < s.len() ==> is_digit(#[trigger] s[k]),
    ensures
        0 <= digits_value(s.take(i)) <= digits_value(s),
    decreases s.len(),
{
    if i == s.len() {
        assert(s.take(i) =~= s);
        if i > 0 {
            lemma_digits_grow(s.drop_last(), i - 1);
            assert(s.drop_last().take(i - 1) =~= s.drop_last());
            assert(is_digit(s[i - 1]));
        }
    } else {
        lemma_digits_grow(s.drop_last(), i);
        assert(s.drop_last().take(i) =~= s.take(i));
        assert(is_digit(s[s.len() - 1]));
    }
}

/// The number written in `s`, if it is one and at most `max`.
pub fn parse_unsigned(s: &[char], max: u64) -> (r: Option<u64>)
    ensures
        match r {
            Some(n) => unsigned(s@, max as int) == Some(n as int),
            None => unsigned(s@, max as int) is None,
        },
{
    let d = if s.len() > 0 && s[0] == '+' {
        slice_subrange(s, 1, s.len())
    } else {
        s
    };
    assert(d@ =~= without_plus(s@));
    if d.len() == 0 {
        return None;
    }
    let mut value: u64 = 0;
    for i in 0..d.len()
        invariant
            d@ == without_plus(s@),
            value == digits_value(d@.take(i as int)),
            value <= max,
            forall|k: int| 0 <= k < i ==> is_digit(#[trigger] d@[k]),
    {
        let c = d[i];
        if c < '0' || c > '9' {
            assert(!is_digit(d@[i as int]));
            return None;
        }
        let wide: u128 = value as u128 * 10 + (c as u32 - 48) as u128;
        assert(d@.take(i + 1).drop_last() =~= d@.take(i as int));
        if wide > max as u128 {
            proof {
                if forall|k: int| 0 <= k < d@.len() ==> is_digit(#[trigger] d@[k]) {
                    lemma_digits_grow(d@, i + 1);
                }
            }
            return None;
        }
        value = wide as u64;
    }
    assert(d@.take(d@.len() as int) =~= d@);
    Some(value)
}

/// The hexadecimal digit for `d`, with the letters from `a`.
pub open spec fn hex_digit(d: int, a: char) -> char {
    if d < 10 {
        digit_char(d)
    } else {
        ((a as u32 + d - 10) as u32) as char
    }
}

/// Two hexadecimal digits for each byte, in small letters.
pub open spec fn hex(bytes: Seq<u8>) -> Seq<char> {
    Seq::new(
        2 * bytes.len(),
        |i: int|
            hex_digit(
                if i % 2 == 0 {
                    bytes[i / 2] as int / 16
                } else {
                    bytes[i / 2] as int % 16
                },
                'a',
            ),
    )
}

/// The hexadecimal digit for `d`, with the letters from `a`.
pub fn hex_digit_of(d: u8, a: char) -> (r: char)
    requires
        d < 16,
        a == 'a' || a == 'A',
    ensures
        r == hex_digit(d as int, a),
{
    let b: u8 = if d < 10 {
        48u8 + d
    } else if a == 'a' {
        97u8 + (d - 10)
    } else {
        65u8 + (d - 10)
    };
    b as char
}

/// Two hexadecimal digits for each byte, in small letters.
pub fn to_hex(bytes: &[u8]) -> (r: String)
    ensures
        r@ == hex(bytes@),
{
    let mut out = String::new();
    for i in 0..bytes.len()
        invariant
            out@ == hex(bytes@.take(i as int)),
    {
        let b: u8 = bytes[i];
        let ghost before = out@;
        out.push(hex_digit_of(b / 16, 'a'));
        out.push(hex_digit_of(b % 16, 'a'));
        assert(out@ =~= hex(bytes@.take(i + 1)));
    }
    assert(bytes@.take(bytes@.len() as int) =~= bytes@);
    out
}

// ---------------------------------------------------------------------------
// What always holds
// ---------------------------------------------------------------------------

/// Joining one more item puts it behind the others, with one separator between
/// where there are others.
pub proof fn lemma_join_push(list: Seq<Seq<char>>, sep: Seq<char>, item: Seq<char>)
    ensures
        join(Seq::<Seq<char>>::empty(), sep) == Seq::<char>::empty(),
        join(list.push(item), sep) == (if list.len() == 0 {
            item
        } else {
            join(list, sep) + sep + item
        }),
{
    assert(list.push(item).drop_last() =~= list);
}

/// A number in decimal is written with digits only, and they give the number
/// back.
pub proof fn lemma_decimal_value(n: nat)
    ensures
        decimal(n).len() > 0,
        forall|i: int| 0 <= i < decimal(n).len() ==> is_digit(#[trigger] decimal(n)[i]),
        digits_value(decimal(n)) == n,
    decreases n,
{
    if n >= 10 {
        lemma_decimal_value(n / 10);
        let front = decimal(n / 10);
        let all = decimal(n);
        assert(all.drop_last() =~= front);
        assert forall|i: int| 0 <= i < all.len() implies is_digit(#[trigger] all[i]) by {
            if i < front.len() {
                assert(all[i] == front[i]);
            }
        }
    } else {
        let all = decimal(n);
        assert(all.drop_last() =~= seq![]);
        assert(digits_value(all.drop_last()) == 0);
    }
}

/// Different numbers are written differently.
pub proof fn lemma_decimal_injective(a: nat, b: nat)
    requires
        decimal(a) == decimal(b),
    ensures
        a == b,
{
    lemma_decimal_value(a);
    lemma_decimal_value(b);
}

/// A number in decimal is read back as it was.
pub proof fn lemma_decimal_read_back(n: nat, max: int)
    requires
        n <= max,
    ensures
        unsigned(decimal(n), max) == Some(n as int),
{
    lemma_decimal_value(n);
    assert(is_digit(decimal(n)[0]));
    assert(without_plus(decimal(n)) == decimal(n));
}

/// Trimming takes white space off both ends, and nothing else.
pub proof fn lemma_trimmed(s: Seq<char>)
    ensures
        exists|i: int, j: int|
            #![trigger s.subrange(i, j)]
            0 <= i <= j <= s.len() && trimmed(s) == s.subrange(i, j) && (forall|k: int|
                0 <= k < i || j <= k < s.len() ==> white_space(#[trigger] s[k])),
        trimmed(s).len() > 0 ==> !white_space(trimmed(s)[0]) && !white_space(trimmed(s).last()),
{
    let i = lemma_trim_start(s);
    let rest = s.skip(i);
    let j = lemma_trim_end(rest);
    assert(s.subrange(i, i + j) =~= rest.take(j));
    assert forall|k: int| 0 <= k < i || i + j <= k < s.len() implies white_space(
        #[trigger] s[k],
    ) by {
        if k >= i + j {
            assert(rest[k - i] == s[k]);
        }
    }
    if j > 0 {
        assert(trimmed(s)[0] == rest[0]);
    }
}

proof fn lemma_trim_start(s: Seq<char>) -> (i: int)
    ensures
        0 <= i <= s.len(),
        trim_start(s) == s.skip(i),
        forall|k: int| 0 <= k < i ==> white_space(#[trigger] s[k]),
        i < s.len() ==> !white_space(s[i]),
    decreases s.len(),
{
    if s.len() > 0 && white_space(s[0]) {
        let rest = s.drop_first();
        let i = lemma_trim_start(rest);
        assert(rest.skip(i) =~= s.skip(i + 1));
        assert forall|k: int| 0 <= k < i + 1 implies white_space(#[trigger] s[k]) by {
            if k > 0 {
                assert(rest[k - 1] == s[k]);
            }
        }
        i + 1
    } else {
        assert(s.skip(0) =~= s);
        0
    }
}

proof fn lemma_trim_end(s: Seq<char>) -> (j: int)
    ensures
        0 <= j <= s.len(),
        trim_end(s) == s.take(j),
        forall|k: int| j <= k < s.len() ==> white_space(#[trigger] s[k]),
        j > 0 ==> !white_space(s[j - 1]),
    decreases s.len(),
{
    if s.len() > 0 && white_space(s.last()) {
        let rest = s.drop_last();
        let j = lemma_trim_end(rest);
        assert(rest.take(j) =~= s.take(j));
        assert forall|k: int| j <= k < s.len() implies white_space(#[trigger] s[k]) by {
            if k < rest.len() {
                assert(rest[k] == s[k]);
            }
        }
        j
    } else {
        assert(s.take(s.len() as int) =~= s);
        s.len() as int
    }
}

/// Joining with one more item in front puts it before the others, with one
/// separator between where there are others.
pub proof fn lemma_join_front(item: Seq<char>, list: Seq<Seq<char>>, sep: Seq<char>)
    ensures
        join(seq![item] + list, sep) == (if list.len() == 0 {
            item
        } else {
            item + sep + join(list, sep)
        }),
    decreases list.len(),
{
    let all = seq![item] + list;
    if list.len() > 0 {
        let front = list.drop_last();
        assert(all.drop_last() =~= seq![item] + front);
        assert(all.last() == list.last());
        lemma_join_front(item, front, sep);
        if front.len() > 0 {
            assert(item + sep + join(front, sep) + sep + list.last() =~= item + sep + (join(
                front,
                sep,
            ) + sep + list.last()));
        } else {
            assert(list.len() == 1);
            assert(join(list, sep) == list[0]);
        }
    }
}

/// The pieces of a text have no separator in them, and joined by it they are
/// the text.
pub proof fn lemma_pieces(s: Seq<char>, sep: char)
    ensures
        pieces(s, sep).len() > 0,
        forall|i: int|
            0 <= i < pieces(s, sep).len() ==> !(#[trigger] pieces(s, sep)[i]).contains(sep),
        join(pieces(s, sep), seq![sep]) == s,
    decreases s.len(),
{
    let i = find_char(s, sep);
    lemma_find_char_bounds(s, sep);
    if i < s.len() {
        let rest = s.skip(i + 1);
        lemma_pieces(rest, sep);
        lemma_join_front(s.take(i), pieces(rest, sep), seq![sep]);
        assert(s =~= s.take(i) + seq![sep] + rest);
        assert forall|k: int| 0 <= k < pieces(s, sep).len() implies !(#[trigger] pieces(
            s,
            sep,
        )[k]).contains(sep) by {
            if k > 0 {
                assert(pieces(s, sep)[k] == pieces(rest, sep)[k - 1]);
            }
        }
    } else {
        assert(join(seq![s], seq![sep]) == s);
    }
}

/// Items without a separator in them that are joined by it come apart again.
pub proof fn lemma_join_comes_apart(list: Seq<Seq<char>>, sep: char)
    requires
        list.len() > 0,
        forall|i: int| 0 <= i < list.len() ==> !(#[trigger] list[i]).contains(sep),
    ensures
        pieces(join(list, seq![sep]), sep) == list,
    decreases list.len(),
{
    let first = list[0];
    let rest = list.drop_first();
    let all = join(list, seq![sep]);
    assert(list =~= seq![first] + rest);
    lemma_join_front(first, rest, seq![sep]);
    assert forall|j: int| 0 <= j < first.len() implies first[j] != sep by {
        assert(!list[0].contains(sep));
        assert(first.contains(first[j]));
    }
    if rest.len() == 0 {
        lemma_find_char(all, sep, all.len() as int);
        assert(pieces(all, sep) =~= list);
    } else {
        assert forall|i: int| 0 <= i < rest.len() implies !(#[trigger] rest[i]).contains(sep) by {
            assert(rest[i] == list[i + 1]);
        }
        lemma_join_comes_apart(rest, sep);
        lemma_find_char(all, sep, first.len() as int);
        assert(all.take(first.len() as int) =~= first);
        assert(all.skip(first.len() as int + 1) =~= join(rest, seq![sep]));
        assert(pieces(all, sep) =~= list);
    }
}

/// A text begins with its first line; what is behind the line's end is cut in
/// the same way. A carriage return right before the newline belongs to
/// neither.
pub proof fn lemma_lines_front(line: Seq<char>, rest: Seq<char>)
    requires
        !line.contains('\n'),
    ensures
        lines(line + seq!['\n'] + rest) == seq![
            if line.len() > 0 && line.last() == '\r' {
                line.drop_last()
            } else {
                line
            },
        ] + lines(rest),
        line.len() > 0 ==> lines(line) == seq![line],
        lines(Seq::<char>::empty()) == Seq::<Seq<char>>::empty(),
{
    let all = line + seq!['\n'] + rest;
    assert forall|j: int| 0 <= j < line.len() implies line[j] != '\n' by {
        assert(line.contains(line[j]));
    }
    lemma_find_char(all, '\n', line.len() as int);
    lemma_find_char(line, '\n', line.len() as int);
    assert(all.take(line.len() as int) =~= line);
    assert(all.skip(line.len() as int + 1) =~= rest);
}

/// A pattern is found where it first occurs, and nowhere only if it does not
/// occur.
pub proof fn lemma_find_text_first(s: Seq<char>, pattern: Seq<char>, j: int)
    requires
        0 <= j <= s.len() - pattern.len(),
        s.subrange(j, j + pattern.len()) == pattern,
    ensures
        find_text(s, pattern) matches Some(i) && i <= j,
    decreases s.len(),
{
    if j == 0 {
        assert(s.take(pattern.len() as int) =~= s.subrange(0, pattern.len() as int));
    } else if !begins(s, pattern) {
        let rest = s.drop_first();
        assert(rest.subrange(j - 1, j - 1 + pattern.len()) =~= s.subrange(j, j + pattern.len()));
        lemma_find_text_first(rest, pattern, j - 1);
    }
}

/// Copies of a prefix are taken off one by one until none is left.
pub proof fn lemma_without_prefixes(s: Seq<char>, prefix: Seq<char>)
    requires
        prefix.len() > 0,
    ensures
        without_prefixes(prefix + s, prefix) == without_prefixes(s, prefix),
        !begins(without_prefixes(s, prefix), prefix),
        !begins(s, prefix) ==> without_prefixes(s, prefix) == s,
    decreases s.len(),
{
    assert((prefix + s).take(prefix.len() as int) =~= prefix);
    assert((prefix + s).skip(prefix.len() as int) =~= s);
    if begins(s, prefix) {
        lemma_without_prefixes(s.skip(prefix.len() as int), prefix);
    }
}

/// Each byte is two hexadecimal digits, from which it can be told.
pub proof fn lemma_hex(bytes: Seq<u8>, i: int)
    requires
        0 <= i < bytes.len(),
    ensures
        hex(bytes).len() == 2 * bytes.len(),
        ({
            let high = hex(bytes)[2 * i] as u32 as int;
            let low = hex(bytes)[2 * i + 1] as u32 as int;
            &&& 48 <= high <= 57 || 97 <= high <= 102
            &&& 48 <= low <= 57 || 97 <= low <= 102
            &&& bytes[i] == 16 * (if high <= 57 {
                high - 48
            } else {
                high - 87
            }) + (if low <= 57 {
                low - 48
            } else {
                low - 87
            })
        }),
{
    assert((2 * i) / 2 == i && (2 * i + 1) / 2 == i);
    assert((2 * i) % 2 == 0 && (2 * i + 1) % 2 == 1);
}

/// In a text of ASCII characters the capitals become the small letters that
/// stand thirty-two places behind them, and all else stays.
pub proof fn lemma_lowercase_ascii(s: Seq<char>, i: int)
    requires
        is_ascii_chars(s),
        0 <= i < s.len(),
    ensures
        lowercase(s).len() == s.len(),
        lowercase(s)[i] as u32 == s[i] as u32 + (if 65 <= s[i] as u32 <= 90 {
            32int
        } else {
            0int
        }),
{
}

/// White space around a text that neither begins nor ends with any is taken
/// off.
pub proof fn lemma_trimmed_both(before: Seq<char>, s: Seq<char>, after: Seq<char>)
    requires
        forall|i: int| 0 <= i < before.len() ==> white_space(#[trigger] before[i]),
        forall|i: int| 0 <= i < after.len() ==> white_space(#[trigger] after[i]),
        s.len() > 0 ==> !white_space(s[0]) && !white_space(s.last()),
    ensures
        trimmed(before + s + after) == s,
{
    let all = before + s + after;
    let i = lemma_trim_start(all);
    let rest = all.skip(i);
    let j = lemma_trim_end(rest);
    if s.len() > 0 {
        if i < before.len() {
            assert(all[i] == before[i]);
        }
        assert(all[before.len() as int] == s[0]);
        assert(i == before.len());
        let end = s.len() as int;
        if j < end {
            assert(rest[end - 1] == s[end - 1]);
        }
        if j > end {
            assert(rest[j - 1] == after[j - 1 - end]);
        }
        assert(rest.take(j) =~= s);
    } else {
        if i < all.len() {
            if i < before.len() {
                assert(all[i] == before[i]);
            } else {
                assert(all[i] == after[i - before.len()]);
            }
        }
        assert(rest.len() == 0);
        assert(rest.take(j) =~= s);
    }
}

/// One more digit makes ten of each one before, and adds itself.
pub proof fn lemma_digits_value_push(s: Seq<char>, c: char)
    ensures
        digits_value(Seq::<char>::empty()) == 0,
        digits_value(s.push(c)) == 10 * digits_value(s) + (c as u32 - 48),
{
    assert(s.push(c).drop_last() =~= s);
}

/// Digits are read as the number they write unless it is too large; a plus
/// sign in front makes no difference, and nothing else is a number.
pub proof fn lemma_unsigned(s: Seq<char>, max: int)
    requires
        s.len() == 0 || s[0] != '+',
    ensures
        ({
            let all_digits = s.len() > 0 && forall|i: int|
                0 <= i < s.len() ==> '0' <= #[trigger] s[i] <= '9';
            &&& unsigned(s, max) is Some <==> all_digits && digits_value(s) <= max
            &&& unsigned(s, max) is Some ==> unsigned(s, max) == Some(digits_value(s))
            &&& unsigned(seq!['+'] + s, max) == unsigned(s, max)
        }),
{
    assert((seq!['+'] + s).drop_first() =~= s);
    if forall|i: int| 0 <= i < s.len() ==> '0' <= #[trigger] s[i] <= '9' {
        assert forall|i: int| 0 <= i < s.len() implies is_digit(#[trigger] s[i]) by {
            assert('0' <= s[i] <= '9');
        }
    }
    if forall|i: int| 0 <= i < s.len() ==> is_digit(#[trigger] s[i]) {
        assert forall|i: int| 0 <= i < s.len() implies '0' <= #[trigger] s[i] <= '9' by {
            assert(is_digit(s[i]));
        }
    }
}

} // verus!
