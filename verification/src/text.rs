//! Reading and writing plain text: the handful of string operations that the
//! viewer needs, each stated over sequences of characters.

use vstd::prelude::*;
use vstd::slice::slice_subrange;

verus! {

/// Appending one character to a string, as `String::push` does.
pub assume_specification[ String::push ](s: &mut String, c: char)
    ensures
        final(s)@ == old(s)@.push(c),
;

/// The text that `String::from_utf8_lossy` makes of some bytes: what is valid
/// UTF-8 as it reads, and replacement characters for the rest.
pub uninterp spec fn lossy(bytes: Seq<u8>) -> Seq<char>;

/// The text of some bytes, by `String::from_utf8_lossy`: a function of the
/// bytes alone, and for valid UTF-8 the characters that it encodes.
#[verifier::external_body]
pub(crate) fn lossy_text(bytes: &[u8]) -> (r: String)
    ensures
        r@ == lossy(bytes@),
        vstd::utf8::valid_utf8(bytes@) ==> r@ == vstd::utf8::decode_utf8(bytes@),
{
    String::from_utf8_lossy(bytes).into_owned()
}

/// The text that some bytes encode in UTF-8, if they do.
pub open spec fn utf8(bytes: Seq<u8>) -> Option<Seq<char>> {
    if vstd::utf8::valid_utf8(bytes) {
        Some(vstd::utf8::decode_utf8(bytes))
    } else {
        None
    }
}

/// The text that some bytes encode in UTF-8, by `std::str::from_utf8`: there is
/// one exactly for valid UTF-8, and it has the characters that the bytes encode.
#[verifier::external_body]
pub(crate) fn utf8_text(bytes: &[u8]) -> (r: Option<String>)
    ensures
        match r {
            Some(s) => utf8(bytes@) == Some(s@),
            None => utf8(bytes@) is None,
        },
{
    std::str::from_utf8(bytes).ok().map(|s| s.to_string())
}

/// The characters that have the Unicode property `White_Space`.
pub open spec fn is_white_space(c: char) -> bool {
    let u = c as u32;
    ||| 0x9 <= u <= 0xd
    ||| u == 0x20
    ||| u == 0x85
    ||| u == 0xa0
    ||| u == 0x1680
    ||| 0x2000 <= u <= 0x200a
    ||| u == 0x2028
    ||| u == 0x2029
    ||| u == 0x202f
    ||| u == 0x205f
    ||| u == 0x3000
}

/// Whether a character is white space.
pub fn white_space(c: char) -> (r: bool)
    ensures
        r == is_white_space(c),
{
    let u: u32 = c as u32;
    (0x9 <= u && u <= 0xd) || u == 0x20 || u == 0x85 || u == 0xa0 || u == 0x1680 || (0x2000 <= u
        && u <= 0x200a) || u == 0x2028 || u == 0x2029 || u == 0x202f || u == 0x205f || u == 0x3000
}

/// The characters of a string.
pub fn chars_of(s: &str) -> (r: Vec<char>)
    ensures
        r@ == s@,
{
    let mut r: Vec<char> = Vec::new();
    for c in it: s.chars()
        invariant
            it.seq() == s@,
            r@ == s@.take(it.index() as int),
    {
        r.push(c);
        assert(s@.take(it.index() + 1) =~= s@.take(it.index() as int).push(c));
    }
    assert(s@.take(s@.len() as int) =~= s@);
    r
}

/// The string made of these characters.
pub fn string_of(chars: &[char]) -> (r: String)
    ensures
        r@ == chars@,
{
    let mut r = String::new();
    let mut i: usize = 0;
    while i < chars.len()
        invariant
            i <= chars@.len(),
            r@ == chars@.take(i as int),
        decreases chars@.len() - i,
    {
        r.push(chars[i]);
        assert(chars@.take(i + 1) =~= chars@.take(i as int).push(chars@[i as int]));
        i += 1;
    }
    assert(chars@.take(chars@.len() as int) =~= chars@);
    r
}

/// `s` without its leading white space.
pub open spec fn trimmed_start(s: Seq<char>) -> Seq<char>
    decreases s.len(),
{
    if s.len() > 0 && is_white_space(s[0]) {
        trimmed_start(s.skip(1))
    } else {
        s
    }
}

/// `s` without its trailing white space.
pub open spec fn trimmed_end(s: Seq<char>) -> Seq<char>
    decreases s.len(),
{
    if s.len() > 0 && is_white_space(s.last()) {
        trimmed_end(s.drop_last())
    } else {
        s
    }
}

/// `s` without the white space at either end.
pub open spec fn trimmed(s: Seq<char>) -> Seq<char> {
    trimmed_end(trimmed_start(s))
}

/// Drops leading white space.
pub fn trim_start(s: &[char]) -> (r: &[char])
    ensures
        r@ == trimmed_start(s@),
{
    let mut i: usize = 0;
    assert(s@.skip(0) =~= s@);
    while i < s.len() && white_space(s[i])
        invariant
            i <= s@.len(),
            trimmed_start(s@) == trimmed_start(s@.skip(i as int)),
        decreases s@.len() - i,
    {
        assert(s@.skip(i as int).skip(1) =~= s@.skip(i + 1));
        i += 1;
    }
    slice_subrange(s, i, s.len())
}

/// Drops trailing white space.
pub fn trim_end(s: &[char]) -> (r: &[char])
    ensures
        r@ == trimmed_end(s@),
{
    let mut n: usize = s.len();
    assert(s@.take(n as int) =~= s@);
    while n > 0 && white_space(s[n - 1])
        invariant
            n <= s@.len(),
            trimmed_end(s@) == trimmed_end(s@.take(n as int)),
        decreases n,
    {
        assert(s@.take(n as int).drop_last() =~= s@.take(n - 1));
        n -= 1;
    }
    slice_subrange(s, 0, n)
}

/// Drops white space at both ends.
pub fn trim(s: &[char]) -> (r: &[char])
    ensures
        r@ == trimmed(s@),
{
    trim_end(trim_start(s))
}

/// What follows `prefix` in `s`, if `s` begins with it.
pub open spec fn after_prefix(s: Seq<char>, prefix: Seq<char>) -> Option<Seq<char>> {
    if prefix.len() <= s.len() && s.take(prefix.len() as int) == prefix {
        Some(s.skip(prefix.len() as int))
    } else {
        None
    }
}

/// What follows `prefix` in `s`, if `s` begins with it.
pub fn strip_prefix<'a>(s: &'a [char], prefix: &str) -> (r: Option<&'a [char]>)
    ensures
        match r {
            Some(rest) => after_prefix(s@, prefix@) == Some(rest@),
            None => after_prefix(s@, prefix@) is None,
        },
{
    let p = chars_of(prefix);
    if p.len() > s.len() {
        return None;
    }
    let mut i: usize = 0;
    while i < p.len()
        invariant
            i <= p@.len() <= s@.len(),
            p@ == prefix@,
            s@.take(i as int) == p@.take(i as int),
        decreases p@.len() - i,
    {
        if s[i] != p[i] {
            assert(s@.take(p@.len() as int)[i as int] != prefix@[i as int]);
            return None;
        }
        assert(s@.take(i + 1) =~= s@.take(i as int).push(s@[i as int]));
        assert(p@.take(i + 1) =~= p@.take(i as int).push(p@[i as int]));
        i += 1;
    }
    assert(p@.take(p@.len() as int) =~= p@);
    Some(slice_subrange(s, p.len(), s.len()))
}

/// The position of the first `c` in `s`, or the length of `s` without one.
pub open spec fn find(s: Seq<char>, c: char) -> int
    decreases s.len(),
{
    if s.len() == 0 || s[0] == c {
        0
    } else {
        1 + find(s.skip(1), c)
    }
}

/// The first `c` is where `find` says, and nothing before it is a `c`.
pub proof fn lemma_find(s: Seq<char>, c: char)
    ensures
        0 <= find(s, c) <= s.len(),
        find(s, c) < s.len() ==> s[find(s, c)] == c,
        forall|i: int| 0 <= i < find(s, c) ==> s[i] != c,
    decreases s.len(),
{
    if s.len() > 0 && s[0] != c {
        lemma_find(s.skip(1), c);
        assert forall|i: int| 0 <= i < find(s, c) implies s[i] != c by {
            if i > 0 {
                assert(s.skip(1)[i - 1] == s[i]);
            }
        }
    }
}

/// The position of the first `c`.
pub fn position_of(s: &[char], c: char) -> (r: usize)
    ensures
        r == find(s@, c),
        r <= s@.len(),
{
    let mut i: usize = 0;
    assert(s@.skip(0) =~= s@);
    while i < s.len() && s[i] != c
        invariant
            i <= s@.len(),
            find(s@, c) == i + find(s@.skip(i as int), c),
        decreases s@.len() - i,
    {
        assert(s@.skip(i as int).skip(1) =~= s@.skip(i + 1));
        i += 1;
    }
    i
}

/// What follows the first `c` in `s`, if there is one.
pub open spec fn after_first(s: Seq<char>, c: char) -> Option<Seq<char>> {
    if find(s, c) < s.len() {
        Some(s.skip(find(s, c) + 1))
    } else {
        None
    }
}

/// What follows the first `c`, if there is one.
pub fn rest_after(s: &[char], c: char) -> (r: Option<&[char]>)
    ensures
        match r {
            Some(rest) => after_first(s@, c) == Some(rest@),
            None => after_first(s@, c) is None,
        },
{
    let i = position_of(s, c);
    if i < s.len() {
        Some(slice_subrange(s, i + 1, s.len()))
    } else {
        None
    }
}

/// A line without the carriage return that ends it.
pub open spec fn without_return(line: Seq<char>) -> Seq<char> {
    if line.len() > 0 && line.last() == '\r' {
        line.drop_last()
    } else {
        line
    }
}

/// The lines of a text. A line ends at a line feed, or at a carriage return
/// and a line feed; the last line may end with the text.
pub open spec fn lines(s: Seq<char>) -> Seq<Seq<char>>
    decreases s.len(),
{
    proof {
        lemma_find(s, '\n');
    }
    if s.len() == 0 {
        Seq::empty()
    } else if find(s, '\n') < s.len() {
        seq![without_return(s.take(find(s, '\n')))] + lines(s.skip(find(s, '\n') + 1))
    } else {
        seq![s]
    }
}

/// The first line of a text that has one, and the text behind that line.
pub fn split_line(s: &[char]) -> (r: (&[char], &[char]))
    requires
        s@.len() > 0,
    ensures
        r.1@.len() < s@.len(),
        lines(s@) == seq![r.0@] + lines(r.1@),
{
    proof {
        lemma_find(s@, '\n');
    }
    let n = position_of(s, '\n');
    if n < s.len() {
        let rest = slice_subrange(s, n + 1, s.len());
        let line = slice_subrange(s, 0, n);
        assert(line@ =~= s@.take(n as int));
        assert(rest@ =~= s@.skip(n + 1));
        if n > 0 && line[n - 1] == '\r' {
            let bare = slice_subrange(line, 0, n - 1);
            assert(bare@ =~= line@.drop_last());
            (bare, rest)
        } else {
            (line, rest)
        }
    } else {
        let rest = slice_subrange(s, n, s.len());
        assert(lines(rest@) =~= Seq::empty());
        assert(lines(s@) =~= seq![s@] + lines(rest@));
        (s, rest)
    }
}

/// The length of the word that `s` begins with.
pub open spec fn word_len(s: Seq<char>) -> int
    decreases s.len(),
{
    if s.len() == 0 || is_white_space(s[0]) {
        0
    } else {
        1 + word_len(s.skip(1))
    }
}

/// A word lies within its text, and what follows it begins with white space.
pub proof fn lemma_word_len(s: Seq<char>)
    ensures
        0 <= word_len(s) <= s.len(),
        s.len() > 0 && !is_white_space(s[0]) ==> word_len(s) > 0,
    decreases s.len(),
{
    if s.len() > 0 && !is_white_space(s[0]) {
        lemma_word_len(s.skip(1));
    }
}

/// Dropping white space makes no text longer.
pub proof fn lemma_trimmed_start(s: Seq<char>)
    ensures
        trimmed_start(s).len() <= s.len(),
        trimmed_start(s).len() > 0 ==> !is_white_space(trimmed_start(s)[0]),
    decreases s.len(),
{
    if s.len() > 0 && is_white_space(s[0]) {
        lemma_trimmed_start(s.skip(1));
    }
}

/// The words of a text: the longest runs of characters that are not white space.
pub open spec fn words(s: Seq<char>) -> Seq<Seq<char>>
    decreases s.len(),
{
    let t = trimmed_start(s);
    proof {
        lemma_trimmed_start(s);
        lemma_word_len(t);
    }
    if t.len() == 0 {
        Seq::empty()
    } else {
        seq![t.take(word_len(t))] + words(t.skip(word_len(t)))
    }
}

/// The first word of a text, if it has one, and the text behind that word.
pub fn split_word(s: &[char]) -> (r: Option<(&[char], &[char])>)
    ensures
        match r {
            Some((word, rest)) => words(s@) == seq![word@] + words(rest@) && rest@.len() < s@.len(),
            None => words(s@).len() == 0,
        },
{
    let t = trim_start(s);
    proof {
        lemma_trimmed_start(s@);
        lemma_word_len(t@);
    }
    if t.len() == 0 {
        return None;
    }
    let mut n: usize = 0;
    assert(t@.skip(0) =~= t@);
    while n < t.len() && !white_space(t[n])
        invariant
            n <= t@.len(),
            word_len(t@) == n + word_len(t@.skip(n as int)),
        decreases t@.len() - n,
    {
        assert(t@.skip(n as int).skip(1) =~= t@.skip(n + 1));
        n += 1;
    }
    let word = slice_subrange(t, 0, n);
    let rest = slice_subrange(t, n, t.len());
    assert(word@ =~= t@.take(n as int));
    assert(rest@ =~= t@.skip(n as int));
    Some((word, rest))
}

/// Whether a character is one of the ten ASCII digits.
pub open spec fn is_digit(c: char) -> bool {
    '0' <= c <= '9'
}

/// Whether every character of `s` is a digit.
pub open spec fn all_digits(s: Seq<char>) -> bool {
    forall|i: int| 0 <= i < s.len() ==> is_digit(#[trigger] s[i])
}

/// The number that a row of digits writes in base ten.
pub open spec fn digits_value(s: Seq<char>) -> int
    decreases s.len(),
{
    if s.len() == 0 {
        0
    } else {
        digits_value(s.drop_last()) * 10 + (s.last() as int - '0' as int)
    }
}

/// The number that `s` writes: digits, at least one.
pub open spec fn digits(s: Seq<char>) -> Option<int> {
    if s.len() > 0 && all_digits(s) {
        Some(digits_value(s))
    } else {
        None
    }
}

/// A number without a sign or with a plus sign.
pub open spec fn unsigned(s: Seq<char>) -> Option<int> {
    if s.len() > 0 && s[0] == '+' {
        digits(s.skip(1))
    } else {
        digits(s)
    }
}

/// A number with or without a sign.
pub open spec fn signed(s: Seq<char>) -> Option<int> {
    if s.len() > 0 && s[0] == '-' {
        match digits(s.skip(1)) {
            Some(n) => Some(-n),
            None => None,
        }
    } else {
        unsigned(s)
    }
}

/// A row of digits never writes a negative number, and the number of a longer
/// row is no smaller.
proof fn lemma_digits_value(s: Seq<char>, n: int)
    requires
        all_digits(s),
        0 <= n <= s.len(),
    ensures
        0 <= digits_value(s.take(n)) <= digits_value(s),
    decreases s.len(),
{
    if n == s.len() {
        assert(s.take(n) =~= s);
        if s.len() > 0 {
            lemma_digits_value(s.drop_last(), n - 1);
            assert(s.drop_last().take(n - 1) =~= s.drop_last());
            assert(is_digit(s[s.len() - 1]));
        }
    } else {
        lemma_digits_value(s.drop_last(), n);
        assert(s.drop_last().take(n) =~= s.take(n));
        assert(is_digit(s[s.len() - 1]));
    }
}

/// What reads as a row of digits is no negative number.
proof fn lemma_digits(s: Seq<char>)
    ensures
        digits(s) matches Some(n) ==> n >= 0,
{
    if all_digits(s) {
        lemma_digits_value(s, 0);
    }
}

/// Reads a row of digits as a number of at most `limit`.
pub fn parse_digits(s: &[char], limit: u64) -> (r: Option<u64>)
    ensures
        match digits(s@) {
            Some(n) => if n <= limit {
                r matches Some(k) && k == n
            } else {
                r is None
            },
            None => r is None,
        },
{
    if s.len() == 0 {
        return None;
    }
    let mut i: usize = 0;
    while i < s.len()
        invariant
            i <= s@.len(),
            forall|j: int| 0 <= j < i ==> is_digit(#[trigger] s@[j]),
        decreases s@.len() - i,
    {
        if s[i] < '0' || s[i] > '9' {
            assert(!is_digit(s@[i as int]));
            return None;
        }
        i += 1;
    }
    let mut n: u64 = 0;
    i = 0;
    while i < s.len()
        invariant
            i <= s@.len(),
            all_digits(s@),
            n == digits_value(s@.take(i as int)),
            n <= limit,
        decreases s@.len() - i,
    {
        assert(s@.take(i + 1).drop_last() =~= s@.take(i as int));
        assert(is_digit(s@[i as int]));
        proof {
            lemma_digits_value(s@, i + 1);
        }
        let d: u64 = (s[i] as u64) - ('0' as u64);
        if n > (u64::MAX - d) / 10 || n * 10 + d > limit {
            return None;
        }
        n = n * 10 + d;
        i += 1;
    }
    assert(s@.take(i as int) =~= s@);
    Some(n)
}

/// Reads a page count: digits, with or without a plus sign.
pub fn parse_usize(s: &[char]) -> (r: Option<usize>)
    ensures
        match unsigned(s@) {
            Some(n) => if n <= usize::MAX {
                r matches Some(k) && k == n
            } else {
                r is None
            },
            None => r is None,
        },
{
    proof {
        lemma_digits(s@);
        if s@.len() > 0 {
            lemma_digits(s@.skip(1));
        }
    }
    let tail = if s.len() > 0 && s[0] == '+' {
        slice_subrange(s, 1, s.len())
    } else {
        s
    };
    match parse_digits(tail, usize::MAX as u64) {
        Some(n) => Some(n as usize),
        None => None,
    }
}

/// Reads a small whole number: digits, with or without a sign.
pub fn parse_i32(s: &[char]) -> (r: Option<i32>)
    ensures
        match signed(s@) {
            Some(n) => if i32::MIN <= n <= i32::MAX {
                r matches Some(k) && k == n
            } else {
                r is None
            },
            None => r is None,
        },
{
    proof {
        lemma_digits(s@);
        if s@.len() > 0 {
            lemma_digits(s@.skip(1));
        }
    }
    if s.len() > 0 && s[0] == '-' {
        match parse_digits(slice_subrange(s, 1, s.len()), 0x8000_0000) {
            Some(n) => Some((0 - n as i64) as i32),
            None => None,
        }
    } else {
        let tail = if s.len() > 0 && s[0] == '+' {
            slice_subrange(s, 1, s.len())
        } else {
            s
        };
        match parse_digits(tail, 0x7fff_ffff) {
            Some(n) => Some(n as i32),
            None => None,
        }
    }
}

/// The base-ten digits of a number, without leading zeros.
pub open spec fn decimal(n: nat) -> Seq<char>
    decreases n,
{
    let last = (n % 10 + '0' as nat) as char;
    if n < 10 {
        seq![last]
    } else {
        decimal(n / 10).push(last)
    }
}

/// Writes a number behind a text.
pub fn push_decimal(out: &mut String, n: u64)
    ensures
        final(out)@ == old(out)@ + decimal(n as nat),
    decreases n,
{
    let last: char = ((n % 10) as u8 + 48u8) as char;
    if n >= 10 {
        push_decimal(out, n / 10);
    }
    out.push(last);
    assert(out@ =~= old(out)@ + decimal(n as nat));
}

/// What is written of a number reads back as that number.
pub proof fn law_decimal_reads_back(n: nat)
    ensures
        unsigned(decimal(n)) == Some(n as int),
        signed(decimal(n)) == Some(n as int),
    decreases n,
{
    lemma_decimal(n);
    let s = decimal(n);
    assert(is_digit(s[0]));
}

/// A written number is a row of digits of that value.
proof fn lemma_decimal(n: nat)
    ensures
        decimal(n).len() > 0,
        all_digits(decimal(n)),
        digits_value(decimal(n)) == n,
    decreases n,
{
    let last = (n % 10 + '0' as nat) as char;
    assert(is_digit(last) && last as int - '0' as int == n % 10);
    if n < 10 {
        reveal_with_fuel(digits_value, 2);
        assert(decimal(n).drop_last() =~= Seq::empty());
    } else {
        lemma_decimal(n / 10);
        let s = decimal(n);
        assert(s.drop_last() =~= decimal(n / 10));
        assert forall|i: int| 0 <= i < s.len() implies is_digit(#[trigger] s[i]) by {
            if i < s.len() - 1 {
                assert(s[i] == decimal(n / 10)[i]);
            }
        }
    }
}

/// Whether every character of a text is white space.
pub open spec fn all_white(s: Seq<char>) -> bool {
    forall|i: int| 0 <= i < s.len() ==> is_white_space(#[trigger] s[i])
}

/// Whether no character of a text is white space.
pub open spec fn no_white(s: Seq<char>) -> bool {
    forall|i: int| 0 <= i < s.len() ==> !is_white_space(#[trigger] s[i])
}

/// A blank separates words, and no letter, digit or mark of ASCII does.
pub proof fn law_blanks_are_white_space(c: char)
    ensures
        is_white_space(' ') && is_white_space('\t') && is_white_space('\n') && is_white_space('\r'),
        33 <= c as u32 <= 126 ==> !is_white_space(c),
{
}

/// White space before a text that does not begin with any is all that is taken off
/// its front.
pub proof fn law_trimmed_start(blank: Seq<char>, s: Seq<char>)
    requires
        all_white(blank),
        s.len() > 0 ==> !is_white_space(s[0]),
    ensures
        trimmed_start(blank + s) == s,
    decreases blank.len(),
{
    if blank.len() > 0 {
        assert((blank + s)[0] == blank[0]);
        assert((blank + s).skip(1) =~= blank.skip(1) + s);
        assert forall|i: int| 0 <= i < blank.skip(1).len() implies is_white_space(
            #[trigger] blank.skip(1)[i],
        ) by {
            assert(blank[i + 1] == blank.skip(1)[i]);
        }
        law_trimmed_start(blank.skip(1), s);
    } else {
        assert(blank + s =~= s);
    }
}

/// White space behind a text that does not end with any is all that is taken off
/// its end.
pub proof fn law_trimmed_end(s: Seq<char>, blank: Seq<char>)
    requires
        all_white(blank),
        s.len() > 0 ==> !is_white_space(s.last()),
    ensures
        trimmed_end(s + blank) == s,
    decreases blank.len(),
{
    if blank.len() > 0 {
        assert((s + blank).last() == blank.last());
        assert((s + blank).drop_last() =~= s + blank.drop_last());
        assert forall|i: int| 0 <= i < blank.drop_last().len() implies is_white_space(
            #[trigger] blank.drop_last()[i],
        ) by {
            assert(blank[i] == blank.drop_last()[i]);
        }
        law_trimmed_end(s, blank.drop_last());
    } else {
        assert(s + blank =~= s);
    }
}

/// Trimming takes the white space off both ends of a text, and nothing else.
pub proof fn law_trimmed(front: Seq<char>, s: Seq<char>, back: Seq<char>)
    requires
        all_white(front),
        all_white(back),
        s.len() > 0 ==> !is_white_space(s[0]) && !is_white_space(s.last()),
    ensures
        trimmed(front + s + back) == s,
{
    if s.len() > 0 {
        assert(front + s + back =~= front + (s + back));
        law_trimmed_start(front, s + back);
        law_trimmed_end(s, back);
    } else {
        let blank = front + s + back;
        assert forall|i: int| 0 <= i < blank.len() implies is_white_space(#[trigger] blank[i]) by {
            if i < front.len() {
                assert(blank[i] == front[i]);
            } else {
                assert(blank[i] == back[i - front.len()]);
            }
        }
        assert(blank =~= blank + Seq::empty());
        law_trimmed_start(blank, Seq::empty());
        assert(s =~= Seq::empty());
    }
}

/// A prefix comes off a text that begins with it, and off no other.
pub proof fn law_prefix_comes_off(s: Seq<char>, prefix: Seq<char>, rest: Seq<char>)
    ensures
        after_prefix(s, prefix) == Some(rest) <==> s == prefix + rest,
        after_prefix(prefix + rest, prefix) == Some(rest),
{
    assert((prefix + rest).take(prefix.len() as int) =~= prefix);
    assert((prefix + rest).skip(prefix.len() as int) =~= rest);
    if after_prefix(s, prefix) == Some(rest) {
        assert(s =~= s.take(prefix.len() as int) + s.skip(prefix.len() as int));
    }
}

/// The first of a character is found where nothing before it is that character.
pub proof fn law_first_is_found(front: Seq<char>, c: char, back: Seq<char>)
    requires
        !front.contains(c),
    ensures
        find(front.push(c) + back, c) == front.len(),
        after_first(front.push(c) + back, c) == Some(back),
        after_first(front, c) is None,
{
    let s = front.push(c) + back;
    lemma_find(s, c);
    lemma_find(front, c);
    assert(s[front.len() as int] == c);
    if find(s, c) < front.len() {
        assert(front[find(s, c)] == s[find(s, c)]);
    }
    assert(s.skip(front.len() as int + 1) =~= back);
}

/// A line ends at the first line feed, with or without a carriage return before
/// it, and the text goes on behind it.
pub proof fn law_lines_are_split_at_line_feeds(line: Seq<char>, rest: Seq<char>)
    requires
        !line.contains('\n'),
    ensures
        line.len() == 0 || line.last() != '\r' ==> lines(line.push('\n') + rest) == seq![line]
            + lines(rest),
        lines(line.push('\r').push('\n') + rest) == seq![line] + lines(rest),
        line.len() > 0 ==> lines(line) == seq![line],
        lines(Seq::empty()) == Seq::<Seq<char>>::empty(),
{
    law_first_is_found(line, '\n', rest);
    let s = line.push('\n') + rest;
    assert(s.take(line.len() as int) =~= line);
    assert(s.skip(line.len() as int + 1) =~= rest);
    let longer = line.push('\r');
    assert(!longer.contains('\n')) by {
        if longer.contains('\n') {
            let i = choose|i: int| 0 <= i < longer.len() && longer[i] == '\n';
            assert(line[i] == '\n');
        }
    }
    law_first_is_found(longer, '\n', rest);
    let t = longer.push('\n') + rest;
    assert(t.take(longer.len() as int) =~= longer);
    assert(t.skip(longer.len() as int + 1) =~= rest);
    assert(longer.drop_last() =~= line);
    law_first_is_found(line, '\n', Seq::empty());
    lemma_find(line, '\n');
}

/// The word that a text begins with ends where white space begins.
proof fn lemma_word_at_front(word: Seq<char>, rest: Seq<char>)
    requires
        no_white(word),
        rest.len() > 0 ==> is_white_space(rest[0]),
    ensures
        word_len(word + rest) == word.len(),
    decreases word.len(),
{
    if word.len() > 0 {
        assert((word + rest)[0] == word[0]);
        assert((word + rest).skip(1) =~= word.skip(1) + rest);
        assert forall|i: int| 0 <= i < word.skip(1).len() implies !is_white_space(
            #[trigger] word.skip(1)[i],
        ) by {
            assert(word[i + 1] == word.skip(1)[i]);
        }
        lemma_word_at_front(word.skip(1), rest);
    } else {
        assert(word + rest =~= rest);
    }
}

/// A word stands between white space, or at either end of the text.
pub proof fn law_words_stand_between_white_space(
    blank: Seq<char>,
    word: Seq<char>,
    rest: Seq<char>,
)
    requires
        all_white(blank),
        no_white(word),
        word.len() > 0,
        rest.len() > 0 ==> is_white_space(rest[0]),
    ensures
        words(blank + word + rest) == seq![word] + words(rest),
        words(blank) == Seq::<Seq<char>>::empty(),
{
    let s = word + rest;
    assert(blank + word + rest =~= blank + s);
    assert(s[0] == word[0]);
    law_trimmed_start(blank, s);
    lemma_word_at_front(word, rest);
    assert(s.take(word.len() as int) =~= word);
    assert(s.skip(word.len() as int) =~= rest);
    law_trimmed_start(blank, Seq::empty());
    assert(blank + Seq::empty() =~= blank);
}

/// A digit behind a number makes it ten times as large and adds the digit.
pub proof fn law_digits_have_place_values(s: Seq<char>, d: char)
    requires
        '0' <= d <= '9',
    ensures
        unsigned(seq![d]) == Some(d as int - '0' as int),
        signed(seq![d]) == Some(d as int - '0' as int),
        unsigned(s) matches Some(n) ==> unsigned(s.push(d)) == Some(
            10 * n + (d as int - '0' as int),
        ),
        s.len() > 0 && s[0] != '-' ==> (signed(s) matches Some(n) ==> signed(s.push(d)) == Some(
            10 * n + (d as int - '0' as int),
        )),
{
    reveal_with_fuel(digits_value, 2);
    assert(seq![d].drop_last() =~= Seq::empty());
    lemma_digit_behind(Seq::empty(), d);
    lemma_digit_behind(s, d);
    if s.len() > 0 {
        lemma_digit_behind(s.skip(1), d);
        assert(s.push(d).skip(1) =~= s.skip(1).push(d));
        assert(s.push(d)[0] == s[0]);
    }
    assert(Seq::<char>::empty().push(d) =~= seq![d]);
}

/// A digit behind a row of digits.
proof fn lemma_digit_behind(s: Seq<char>, d: char)
    requires
        is_digit(d),
    ensures
        all_digits(s.push(d)) == all_digits(s),
        digits_value(s.push(d)) == 10 * digits_value(s) + (d as int - '0' as int),
{
    let t = s.push(d);
    assert(t.drop_last() =~= s);
    if all_digits(s) {
        assert forall|i: int| 0 <= i < t.len() implies is_digit(#[trigger] t[i]) by {
            if i < s.len() {
                assert(t[i] == s[i]);
            }
        }
    }
    if all_digits(t) {
        assert forall|i: int| 0 <= i < s.len() implies is_digit(#[trigger] s[i]) by {
            assert(t[i] == s[i]);
        }
    }
}

/// A sign stands before the digits: a plus sign changes nothing, and a minus sign
/// is for signed numbers only.
pub proof fn law_signs_stand_before_digits(s: Seq<char>)
    requires
        s.len() > 0 ==> s[0] != '+' && s[0] != '-',
    ensures
        unsigned(seq!['+'] + s) == unsigned(s),
        signed(seq!['+'] + s) == unsigned(s),
        signed(s) == unsigned(s),
        unsigned(seq!['-'] + s) is None,
        signed(seq!['-'] + s) == match unsigned(s) {
            Some(n) => Some(-n),
            None => None,
        },
        unsigned(Seq::empty()) is None,
{
    assert((seq!['+'] + s).skip(1) =~= s);
    assert((seq!['-'] + s).skip(1) =~= s);
    assert((seq!['-'] + s)[0] == '-');
    assert(!is_digit((seq!['-'] + s)[0]));
}

/// A text with anything but digits in it, behind a sign at its front, is no number.
pub proof fn law_only_digits_make_a_number(s: Seq<char>, i: int)
    requires
        0 <= i < s.len(),
        s[i] < '0' || s[i] > '9',
        i > 0 || (s[i] != '+' && s[i] != '-'),
    ensures
        unsigned(s) is None,
        signed(s) is None,
{
    assert(!is_digit(s[i]));
    if i > 0 {
        assert(s.skip(1)[i - 1] == s[i]);
        assert(!is_digit(s.skip(1)[i - 1]));
    }
}

/// A written number is made of digits and does not begin with a zero, unless it
/// is zero.
pub proof fn law_decimal_is_plain(n: nat)
    ensures
        decimal(n).len() > 0,
        forall|i: int| 0 <= i < decimal(n).len() ==> '0' <= #[trigger] decimal(n)[i] <= '9',
        decimal(n)[0] == '0' <==> n == 0,
        no_white(decimal(n)),
    decreases n,
{
    lemma_decimal(n);
    assert forall|i: int| 0 <= i < decimal(n).len() implies '0' <= #[trigger] decimal(n)[i] <= '9' by {
        assert(is_digit(decimal(n)[i]));
    }
    if n >= 10 {
        law_decimal_is_plain(n / 10);
        assert(decimal(n)[0] == decimal(n / 10)[0]);
    }
}

/// Two numbers are written differently.
pub proof fn law_decimal_tells_numbers_apart(m: nat, n: nat)
    ensures
        decimal(m) == decimal(n) ==> m == n,
{
    law_decimal_reads_back(m);
    law_decimal_reads_back(n);
}

} // verus!
