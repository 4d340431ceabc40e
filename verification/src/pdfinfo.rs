//! What the program `pdfinfo` prints of a PDF: how many pages it has, and the
//! size and the rotation of each.

use vstd::prelude::*;

use crate::document::{PageSize, Scalar};
use crate::text::{
    after_first, after_prefix, all_white, chars_of, decimal, is_white_space, law_decimal_is_plain,
    law_decimal_reads_back, law_digits_have_place_values, law_first_is_found,
    law_lines_are_split_at_line_feeds, law_prefix_comes_off, law_signs_stand_before_digits, law_trimmed, law_trimmed_start,
    law_words_stand_between_white_space, lines, no_white, parse_i32, parse_usize, push_decimal,
    rest_after, signed, split_line, split_word, string_of, strip_prefix, trim, trim_start, trimmed,
    trimmed_start, unsigned, words,
};

verus! {

/// What follows `Pages:` in the first of these lines that begins with it.
pub open spec fn count_field(ls: Seq<Seq<char>>) -> Option<Seq<char>>
    decreases ls.len(),
{
    if ls.len() == 0 {
        None
    } else if after_prefix(ls[0], "Pages:"@) is Some {
        after_prefix(ls[0], "Pages:"@)
    } else {
        count_field(ls.skip(1))
    }
}

/// The page count that a text states, if it states one.
pub open spec fn stated_count(text: Seq<char>) -> Option<int> {
    match count_field(lines(text)) {
        Some(field) => match unsigned(trimmed(field)) {
            Some(n) => if n <= usize::MAX {
                Some(n)
            } else {
                None
            },
            None => None,
        },
        None => None,
    }
}

/// The number of pages that a text tells, or why there is none.
pub open spec fn told_count(text: Seq<char>) -> Result<int, Seq<char>> {
    match stated_count(text) {
        Some(n) => if n == 0 {
            Err("empty PDF"@)
        } else {
            Ok(n)
        },
        None => Err("pdfinfo: no page count"@),
    }
}

/// The number of pages, from the text that `pdfinfo` prints. A text without a
/// count is an error, and so is a document without pages.
pub fn page_count(text: &str) -> (r: Result<usize, String>)
    ensures
        match told_count(text@) {
            Ok(n) => r matches Ok(k) && k == n,
            Err(words) => r matches Err(e) && e@ == words,
        },
{
    let chars = chars_of(text);
    let mut rest: &[char] = chars.as_slice();
    while rest.len() > 0
        invariant
            count_field(lines(rest@)) == count_field(lines(text@)),
        decreases rest@.len(),
    {
        let (line, tail) = split_line(rest);
        proof {
            assert(lines(rest@)[0] == line@);
            assert(lines(rest@).skip(1) =~= lines(tail@));
        }
        if let Some(field) = strip_prefix(line, "Pages:") {
            return match parse_usize(trim(field)) {
                Some(n) => if n == 0 {
                    Err("empty PDF".to_string())
                } else {
                    Ok(n)
                },
                None => Err("pdfinfo: no page count".to_string()),
            };
        }
        rest = tail;
    }
    Err("pdfinfo: no page count".to_string())
}

/// What a line tells of a page: the two numbers of its size, as they are
/// written and as far as they are there, or its rotation in degrees.
pub enum PageLine {
    Size { w: Option<String>, h: Option<String> },
    Rotation(i32),
}

/// What a line tells of a page.
#[verifier::ext_equal]
pub enum PageFact {
    Size { w: Option<Seq<char>>, h: Option<Seq<char>> },
    Rotation(int),
}

/// The characters of a text that may be missing.
pub open spec fn written(s: Option<String>) -> Option<Seq<char>> {
    match s {
        Some(s) => Some(s@),
        None => None,
    }
}

impl View for PageLine {
    type V = PageFact;

    open spec fn view(&self) -> PageFact {
        match *self {
            PageLine::Size { w, h } => PageFact::Size { w: written(w), h: written(h) },
            PageLine::Rotation(degrees) => PageFact::Rotation(degrees as int),
        }
    }
}

/// One of the words of a list, if there are that many.
pub open spec fn word(ws: Seq<Seq<char>>, n: int) -> Option<Seq<char>> {
    if n < ws.len() {
        Some(ws[n])
    } else {
        None
    }
}

/// What the field of a page tells, such as `size: 595.276 x 841.89 pts (A4)` or
/// `rot: 90`: the first and the third word of a size; a rotation, which is none
/// where it cannot be read.
pub open spec fn field_fact(field: Seq<char>) -> Option<PageFact> {
    match after_prefix(field, "size:"@) {
        Some(v) => Some(PageFact::Size { w: word(words(v), 0), h: word(words(v), 2) }),
        None => match after_prefix(field, "rot:"@) {
            Some(v) => Some(
                PageFact::Rotation(
                    match signed(trimmed(v)) {
                        Some(n) => if i32::MIN <= n <= i32::MAX {
                            n
                        } else {
                            0
                        },
                        None => 0,
                    },
                ),
            ),
            None => None,
        },
    }
}

/// What a line tells of a page, if it is a line such as
/// `Page    1 size: 595.276 x 841.89 pts (A4)` or `Page    1 rot: 90`.
pub open spec fn line_fact(line: Seq<char>) -> Option<PageFact> {
    match after_prefix(line, "Page "@) {
        Some(rest) => match after_first(trimmed_start(rest), ' ') {
            Some(field) => field_fact(trimmed_start(field)),
            None => None,
        },
        None => None,
    }
}

/// What the lines of a text tell of its pages, in their order.
pub open spec fn facts(ls: Seq<Seq<char>>) -> Seq<PageFact>
    decreases ls.len(),
{
    if ls.len() == 0 {
        Seq::empty()
    } else {
        match line_fact(ls[0]) {
            Some(fact) => seq![fact] + facts(ls.skip(1)),
            None => facts(ls.skip(1)),
        }
    }
}

/// What the field of a page tells.
fn read_field(field: &[char]) -> (r: Option<PageLine>)
    ensures
        match r {
            Some(line) => field_fact(field@) == Some(line@),
            None => field_fact(field@) is None,
        },
{
    if let Some(v) = strip_prefix(field, "size:") {
        let mut w: Option<String> = None;
        let mut h: Option<String> = None;
        if let Some((first, rest)) = split_word(v) {
            w = Some(string_of(first));
            if let Some((second, rest)) = split_word(rest) {
                if let Some((third, rest)) = split_word(rest) {
                    h = Some(string_of(third));
                }
            }
        }
        Some(PageLine::Size { w, h })
    } else if let Some(v) = strip_prefix(field, "rot:") {
        match parse_i32(trim(v)) {
            Some(degrees) => Some(PageLine::Rotation(degrees)),
            None => Some(PageLine::Rotation(0)),
        }
    } else {
        None
    }
}

/// What a line tells of a page.
fn read_line(line: &[char]) -> (r: Option<PageLine>)
    ensures
        match r {
            Some(p) => line_fact(line@) == Some(p@),
            None => line_fact(line@) is None,
        },
{
    if let Some(rest) = strip_prefix(line, "Page ") {
        if let Some(field) = rest_after(trim_start(rest), ' ') {
            return read_field(trim_start(field));
        }
    }
    None
}

/// What the lines of a list tell, one by one.
pub open spec fn told(list: Seq<PageLine>) -> Seq<PageFact> {
    list.map_values(|l: PageLine| l@)
}

/// What a text tells of the pages, in the order of its lines.
pub open spec fn told_pages(text: Seq<char>) -> Seq<PageFact> {
    facts(lines(text))
}

/// What the text that `pdfinfo` prints tells of the pages, in the order of its
/// lines.
pub fn read_pages(text: &str) -> (r: Vec<PageLine>)
    ensures
        told(r@) == told_pages(text@),
{
    let chars = chars_of(text);
    let mut rest: &[char] = chars.as_slice();
    let mut r: Vec<PageLine> = Vec::new();
    assert(told(r@) + facts(lines(rest@)) =~= facts(lines(text@)));
    while rest.len() > 0
        invariant
            told(r@) + facts(lines(rest@)) == facts(lines(text@)),
        decreases rest@.len(),
    {
        let (line, tail) = split_line(rest);
        proof {
            assert(lines(rest@)[0] == line@);
            assert(lines(rest@).skip(1) =~= lines(tail@));
        }
        let ghost before = r@;
        if let Some(p) = read_line(line) {
            r.push(p);
            assert(told(r@) =~= told(before).push(p@));
            assert(told(r@) + facts(lines(tail@)) =~= told(before) + facts(lines(rest@)));
        }
        rest = tail;
    }
    assert(told(r@) + facts(lines(rest@)) =~= told(r@));
    r
}

/// The arguments with which `pdfinfo` prints the size of every page.
pub open spec fn spec_size_arguments(count: usize) -> Seq<Seq<char>> {
    seq!["-f"@, "1"@, "-l"@, decimal(count as nat)]
}

/// The arguments with which `pdfinfo` prints the size of every page.
pub fn size_arguments(count: usize) -> (r: Vec<String>)
    ensures
        r@.map_values(|a: String| a@) == spec_size_arguments(count),
{
    let mut last = String::new();
    push_decimal(&mut last, count as u64);
    assert(last@ =~= decimal(count as nat));
    let mut r: Vec<String> = Vec::new();
    r.push("-f".to_string());
    r.push("1".to_string());
    r.push("-l".to_string());
    r.push(last);
    assert(r@.map_values(|a: String| a@) =~= spec_size_arguments(count));
    r
}

/// What a line tells of a page once its numbers are read: a size, which is
/// missing where a number is missing or is none, or a rotation in degrees.
#[derive(Debug, Clone, Copy, PartialEq, Eq, Structural)]
pub enum PageEntry {
    Size(Option<PageSize>),
    Rotation(i32),
}

/// A line with its two numbers as they were read, where they could be.
pub open spec fn numbered(line: PageLine, w: Option<Scalar>, h: Option<Scalar>) -> PageEntry {
    match line {
        PageLine::Size { .. } => match (w, h) {
            (Some(w), Some(h)) => PageEntry::Size(Some(PageSize { w, h })),
            _ => PageEntry::Size(None),
        },
        PageLine::Rotation(degrees) => PageEntry::Rotation(degrees),
    }
}

impl PageLine {
    /// The line with its two numbers as they were read, where they could be.
    pub fn with_numbers(&self, w: Option<Scalar>, h: Option<Scalar>) -> (r: PageEntry)
        ensures
            r == numbered(*self, w, h),
    {
        match self {
            PageLine::Size { .. } => match (w, h) {
                (Some(w), Some(h)) => PageEntry::Size(Some(PageSize { w, h })),
                _ => PageEntry::Size(None),
            },
            PageLine::Rotation(degrees) => PageEntry::Rotation(*degrees),
        }
    }
}

/// Each line with its own two numbers.
pub open spec fn all_numbered(
    lines: Seq<PageLine>,
    numbers: Seq<(Option<Scalar>, Option<Scalar>)>,
) -> Seq<PageEntry> {
    Seq::new(lines.len(), |i: int| numbered(lines[i], numbers[i].0, numbers[i].1))
}

/// What the lines tell of the pages, where `numbers` holds for each line its two
/// numbers as they were read.
pub fn page_entries(
    lines: &Vec<PageLine>,
    numbers: &Vec<(Option<Scalar>, Option<Scalar>)>,
) -> (r: Vec<PageEntry>)
    requires
        lines@.len() == numbers@.len(),
    ensures
        r@ == all_numbered(lines@, numbers@),
{
    let mut r: Vec<PageEntry> = Vec::new();
    let mut i: usize = 0;
    while i < lines.len()
        invariant
            i <= lines@.len() == numbers@.len(),
            r@ == Seq::new(
                i as nat,
                |k: int| numbered(lines@[k], numbers@[k].0, numbers@[k].1),
            ),
        decreases lines@.len() - i,
    {
        let (w, h) = numbers[i];
        r.push(lines[i].with_numbers(w, h));
        i += 1;
        assert(r@ =~= Seq::new(
            i as nat,
            |k: int| numbered(lines@[k], numbers@[k].0, numbers@[k].1),
        ));
    }
    r
}

/// The sizes among some entries, in their order.
pub open spec fn sizes(entries: Seq<PageEntry>) -> Seq<PageSize>
    decreases entries.len(),
{
    if entries.len() == 0 {
        Seq::empty()
    } else {
        match entries.last() {
            PageEntry::Size(Some(size)) => sizes(entries.drop_last()).push(size),
            _ => sizes(entries.drop_last()),
        }
    }
}

/// The rotations among some entries, in their order.
pub open spec fn rotations(entries: Seq<PageEntry>) -> Seq<i32>
    decreases entries.len(),
{
    if entries.len() == 0 {
        Seq::empty()
    } else {
        match entries.last() {
            PageEntry::Rotation(degrees) => rotations(entries.drop_last()).push(degrees),
            _ => rotations(entries.drop_last()),
        }
    }
}

/// Whether a rotation lays a page on its side.
pub open spec fn sideways(degrees: int) -> bool {
    degrees == 90 || degrees == 270
}

/// The size of a page as it is shown: `pdfinfo` states sizes as they are before
/// the page is rotated.
pub open spec fn shown_size(entries: Seq<PageEntry>, page: int) -> PageSize {
    if page < rotations(entries).len() && sideways(rotations(entries)[page] as int) {
        sizes(entries)[page].spec_turned()
    } else {
        sizes(entries)[page]
    }
}

/// The text `pdfinfo: n sizes for count pages`.
pub open spec fn size_mismatch(n: nat, count: nat) -> Seq<char> {
    "pdfinfo: "@ + decimal(n) + " sizes for "@ + decimal(count) + " pages"@
}

/// Says that the sizes do not match the page count.
fn mismatch(n: usize, count: usize) -> (r: String)
    ensures
        r@ == size_mismatch(n as nat, count as nat),
{
    let mut r = String::new();
    r.append("pdfinfo: ");
    push_decimal(&mut r, n as u64);
    r.append(" sizes for ");
    push_decimal(&mut r, count as u64);
    r.append(" pages");
    assert(r@ =~= size_mismatch(n as nat, count as nat));
    r
}

/// The size of every page as it is shown, or why it is not known.
pub open spec fn all_sizes(count: usize, entries: Seq<PageEntry>) -> Result<
    Seq<PageSize>,
    Seq<char>,
> {
    if entries.contains(PageEntry::Size(None)) {
        Err("pdfinfo: bad size"@)
    } else if sizes(entries).len() != count {
        Err(size_mismatch(sizes(entries).len(), count as nat))
    } else {
        Ok(Seq::new(count as nat, |i: int| shown_size(entries, i)))
    }
}

/// The size of every page as it is shown. A size that could not be read is an
/// error, and so is another number of sizes than there are pages.
pub fn page_sizes(count: usize, entries: &Vec<PageEntry>) -> (r: Result<Vec<PageSize>, String>)
    ensures
        match all_sizes(count, entries@) {
            Ok(list) => r matches Ok(pages) && pages@ == list,
            Err(words) => r matches Err(e) && e@ == words,
        },
{
    let mut pages: Vec<PageSize> = Vec::new();
    let mut turns: Vec<i32> = Vec::new();
    let mut i: usize = 0;
    while i < entries.len()
        invariant
            i <= entries@.len(),
            pages@ == sizes(entries@.take(i as int)),
            turns@ == rotations(entries@.take(i as int)),
            !entries@.take(i as int).contains(PageEntry::Size(None)),
        decreases entries@.len() - i,
    {
        let ghost more = entries@.take(i + 1);
        assert(more.drop_last() =~= entries@.take(i as int));
        assert(more =~= entries@.take(i as int).push(entries@[i as int]));
        match entries[i] {
            PageEntry::Size(Some(size)) => {
                pages.push(size);
            },
            PageEntry::Size(None) => {
                assert(entries@[i as int] == PageEntry::Size(None));
                return Err("pdfinfo: bad size".to_string());
            },
            PageEntry::Rotation(degrees) => {
                turns.push(degrees);
            },
        }
        i += 1;
    }
    assert(entries@.take(i as int) =~= entries@);
    if pages.len() != count {
        return Err(mismatch(pages.len(), count));
    }
    let mut shown: Vec<PageSize> = Vec::new();
    i = 0;
    while i < count
        invariant
            i <= count == pages@.len(),
            pages@ == sizes(entries@),
            turns@ == rotations(entries@),
            shown@ == Seq::new(i as nat, |k: int| shown_size(entries@, k)),
        decreases count - i,
    {
        let size = pages[i];
        if i < turns.len() && (turns[i] == 90 || turns[i] == 270) {
            shown.push(PageSize { w: size.h, h: size.w });
        } else {
            shown.push(size);
        }
        i += 1;
        assert(shown@ =~= Seq::new(i as nat, |k: int| shown_size(entries@, k)));
    }
    Ok(shown)
}

/// What a line tells is what its field tells, behind `Page`, the number of the page
/// and white space.
proof fn lemma_field_of_line(blank: Seq<char>, n: nat, gap: Seq<char>, field: Seq<char>)
    requires
        all_white(blank),
        all_white(gap),
        field.len() > 0,
        !is_white_space(field[0]),
    ensures
        line_fact("Page "@ + blank + decimal(n) + seq![' '] + gap + field) == field_fact(field),
{
    law_decimal_is_plain(n);
    let number = decimal(n);
    let tail = gap + field;
    let rest = number.push(' ') + tail;
    assert("Page "@ + blank + number + seq![' '] + gap + field =~= "Page "@ + (blank + rest));
    law_prefix_comes_off("Page "@ + (blank + rest), "Page "@, blank + rest);
    assert(rest[0] == number[0]);
    law_trimmed_start(blank, rest);
    assert(!number.contains(' ')) by {
        if number.contains(' ') {
            let i = choose|i: int| 0 <= i < number.len() && number[i] == ' ';
            assert('0' <= number[i] <= '9');
        }
    }
    law_first_is_found(number, ' ', tail);
    law_trimmed_start(gap, field);
}

/// A line `Page n size: w x h` tells that size, as it is written, of whatever page
/// and however it is spaced.
pub proof fn law_size_line_tells_the_size(
    blank: Seq<char>,
    n: nat,
    gap: Seq<char>,
    before: Seq<char>,
    w: Seq<char>,
    left: Seq<char>,
    times: Seq<char>,
    right: Seq<char>,
    h: Seq<char>,
    tail: Seq<char>,
)
    requires
        all_white(blank) && all_white(gap) && all_white(before),
        all_white(left) && left.len() > 0,
        all_white(right) && right.len() > 0,
        no_white(w) && w.len() > 0,
        no_white(times) && times.len() > 0,
        no_white(h) && h.len() > 0,
        tail.len() > 0 ==> is_white_space(tail[0]),
    ensures
        line_fact(
            "Page "@ + blank + decimal(n) + seq![' '] + gap + ("size:"@ + before + w + left + times
                + right + h + tail),
        ) == Some(PageFact::Size { w: Some(w), h: Some(h) }),
{
    reveal_strlit("size:");
    let v = before + w + left + times + right + h + tail;
    let field = "size:"@ + before + w + left + times + right + h + tail;
    assert(field =~= "size:"@ + v);
    assert(field[0] == 's');
    lemma_field_of_line(blank, n, gap, field);
    law_prefix_comes_off(field, "size:"@, v);
    let third = right + h + tail;
    let second = left + times + third;
    assert(v =~= before + w + second);
    assert(second[0] == left[0]);
    assert(is_white_space(left[0]));
    assert(third[0] == right[0]);
    assert(is_white_space(right[0]));
    law_words_stand_between_white_space(before, w, second);
    law_words_stand_between_white_space(left, times, third);
    law_words_stand_between_white_space(right, h, tail);
    assert(words(v)[0] == w);
    assert(words(v) =~= seq![w] + (seq![times] + (seq![h] + words(tail))));
    assert(words(v)[2] == h);
}

/// A line `Page n size:` with too few words tells of a size without those numbers.
pub proof fn law_short_size_line_lacks_numbers(
    blank: Seq<char>,
    n: nat,
    gap: Seq<char>,
    before: Seq<char>,
    w: Seq<char>,
    left: Seq<char>,
)
    requires
        all_white(blank) && all_white(gap) && all_white(before) && all_white(left),
        no_white(w) && w.len() > 0,
    ensures
        line_fact("Page "@ + blank + decimal(n) + seq![' '] + gap + ("size:"@ + before)) == Some(
            PageFact::Size { w: None, h: None },
        ),
        line_fact(
            "Page "@ + blank + decimal(n) + seq![' '] + gap + ("size:"@ + (before + w + left)),
        ) == Some(PageFact::Size { w: Some(w), h: None }),
{
    reveal_strlit("size:");
    assert(("size:"@ + before)[0] == 's');
    lemma_field_of_line(blank, n, gap, "size:"@ + before);
    law_prefix_comes_off("size:"@ + before, "size:"@, before);
    let v = before + w + left;
    assert(("size:"@ + v)[0] == 's');
    lemma_field_of_line(blank, n, gap, "size:"@ + v);
    law_prefix_comes_off("size:"@ + v, "size:"@, v);
    law_words_stand_between_white_space(before, w, left);
    law_words_stand_between_white_space(left, w, Seq::empty());
}

/// A line `Page n rot: d` tells that rotation, of whatever page and however it is
/// spaced.
pub proof fn law_rotation_line_tells_the_rotation(
    blank: Seq<char>,
    n: nat,
    gap: Seq<char>,
    before: Seq<char>,
    d: nat,
    after: Seq<char>,
)
    requires
        all_white(blank) && all_white(gap) && all_white(before) && all_white(after),
        d <= i32::MAX,
    ensures
        line_fact(
            "Page "@ + blank + decimal(n) + seq![' '] + gap + ("rot:"@ + (before + decimal(d)
                + after)),
        ) == Some(PageFact::Rotation(d as int)),
        line_fact(
            "Page "@ + blank + decimal(n) + seq![' '] + gap + ("rot:"@ + (before + (seq!['-']
                + decimal(d)) + after)),
        ) == Some(PageFact::Rotation(-(d as int))),
{
    law_decimal_is_plain(d);
    law_decimal_reads_back(d);
    let plain = decimal(d);
    assert('0' <= plain[0] <= '9');
    assert(!is_white_space(plain.last()));
    law_signs_stand_before_digits(plain);
    lemma_rotation_field(blank, n, gap, before, plain, after);
    let minus = seq!['-'] + plain;
    assert(minus[0] == '-');
    assert(minus.last() == plain.last());
    lemma_rotation_field(blank, n, gap, before, minus, after);
}

/// What a rotation line tells is what its word reads as.
proof fn lemma_rotation_field(
    blank: Seq<char>,
    n: nat,
    gap: Seq<char>,
    before: Seq<char>,
    word: Seq<char>,
    after: Seq<char>,
)
    requires
        all_white(blank) && all_white(gap) && all_white(before) && all_white(after),
        word.len() > 0 && !is_white_space(word[0]) && !is_white_space(word.last()),
        signed(word) matches Some(d) && i32::MIN <= d <= i32::MAX,
    ensures
        line_fact(
            "Page "@ + blank + decimal(n) + seq![' '] + gap + ("rot:"@ + (before + word + after)),
        ) == Some(PageFact::Rotation(signed(word)->0)),
{
    reveal_strlit("size:");
    reveal_strlit("rot:");
    let v = before + word + after;
    let field = "rot:"@ + v;
    assert(field[0] == 'r');
    lemma_field_of_line(blank, n, gap, field);
    law_prefix_comes_off(field, "rot:"@, v);
    assert(after_prefix(field, "size:"@) is None) by {
        if field.len() >= 5 {
            assert(field.take(5)[0] == 'r');
        }
    }
    law_trimmed(before, word, after);
}

/// A line that does not begin with `Page` and a blank tells nothing.
pub proof fn law_other_lines_tell_nothing(line: Seq<char>)
    requires
        after_prefix(line, "Page "@) is None,
    ensures
        line_fact(line) is None,
{
}

/// What is told of the pages is told line by line, in the order of the lines.
pub proof fn law_pages_are_told_line_by_line(a: Seq<Seq<char>>, b: Seq<Seq<char>>, line: Seq<char>)
    ensures
        facts(a + b) == facts(a) + facts(b),
        facts(seq![line]) == match line_fact(line) {
            Some(fact) => seq![fact],
            None => Seq::empty(),
        },
    decreases a.len(),
{
    assert(seq![line].skip(1) =~= Seq::empty());
    reveal_with_fuel(facts, 2);
    assert(facts(seq![line]) =~= match line_fact(line) {
        Some(fact) => seq![fact],
        None => Seq::empty(),
    });
    if a.len() > 0 {
        assert((a + b).skip(1) =~= a.skip(1) + b);
        assert((a + b)[0] == a[0]);
        law_pages_are_told_line_by_line(a.skip(1), b, line);
    } else {
        assert(a + b =~= b);
    }
    assert(facts(a + b) =~= facts(a) + facts(b));
}

/// The page count is what the first line `Pages: n` says, whatever stands in the
/// other lines.
pub proof fn law_page_count_is_read(
    text: Seq<char>,
    front: Seq<Seq<char>>,
    before: Seq<char>,
    n: nat,
    after: Seq<char>,
    back: Seq<Seq<char>>,
)
    requires
        lines(text) == front.push("Pages:"@ + (before + decimal(n) + after)) + back,
        forall|i: int| 0 <= i < front.len() ==> after_prefix(#[trigger] front[i], "Pages:"@) is None,
        all_white(before),
        all_white(after),
        n <= usize::MAX,
    ensures
        n > 0 ==> told_count(text) == Ok::<int, Seq<char>>(n as int),
        n == 0 ==> told_count(text) == Err::<int, Seq<char>>("empty PDF"@),
{
    let v = before + decimal(n) + after;
    let line = "Pages:"@ + v;
    law_prefix_comes_off(line, "Pages:"@, v);
    lemma_count_field(front, line, back);
    law_decimal_is_plain(n);
    law_decimal_reads_back(n);
    assert(!is_white_space(decimal(n).last()));
    law_trimmed(before, decimal(n), after);
}

/// Lines without a count are passed over.
proof fn lemma_count_field(front: Seq<Seq<char>>, line: Seq<char>, back: Seq<Seq<char>>)
    requires
        forall|i: int| 0 <= i < front.len() ==> after_prefix(#[trigger] front[i], "Pages:"@) is None,
        after_prefix(line, "Pages:"@) is Some,
    ensures
        count_field(front.push(line) + back) == after_prefix(line, "Pages:"@),
        count_field(front) is None,
    decreases front.len(),
{
    let all = front.push(line) + back;
    if front.len() > 0 {
        assert(all[0] == front[0]);
        assert(all.skip(1) =~= front.skip(1).push(line) + back);
        assert forall|i: int| 0 <= i < front.skip(1).len() implies after_prefix(
            #[trigger] front.skip(1)[i],
            "Pages:"@,
        ) is None by {
            assert(front[i + 1] == front.skip(1)[i]);
        }
        lemma_count_field(front.skip(1), line, back);
    } else {
        assert(all[0] == line);
    }
}

/// A text in which no line begins with `Pages:` tells no page count.
pub proof fn law_page_count_may_be_missing(text: Seq<char>)
    requires
        forall|i: int|
            0 <= i < lines(text).len() ==> after_prefix(#[trigger] lines(text)[i], "Pages:"@) is None,
    ensures
        told_count(text) == Err::<int, Seq<char>>("pdfinfo: no page count"@),
{
    law_prefix_comes_off("Pages:"@ + Seq::empty(), "Pages:"@, Seq::empty());
    lemma_count_field(lines(text), "Pages:"@ + Seq::empty(), Seq::empty());
}

/// Two numbers make a size, the first its width; a size without both is none, and a
/// rotation needs none.
pub proof fn law_numbers_make_a_size(
    w_word: Option<String>,
    h_word: Option<String>,
    w: Scalar,
    h: Scalar,
    degrees: i32,
    any: Option<Scalar>,
)
    ensures
        numbered(PageLine::Size { w: w_word, h: h_word }, Some(w), Some(h)) matches PageEntry::Size(
            Some(size),
        ) && size.w == w && size.h == h,
        numbered(PageLine::Size { w: w_word, h: h_word }, None, any) == PageEntry::Size(None),
        numbered(PageLine::Size { w: w_word, h: h_word }, any, None) == PageEntry::Size(None),
        numbered(PageLine::Rotation(degrees), any, None) == PageEntry::Rotation(degrees),
        numbered(PageLine::Rotation(degrees), None, any) == PageEntry::Rotation(degrees),
{
}

/// What is told of some pages when each has a size and then a rotation.
pub open spec fn told_of_each(pages: Seq<(PageSize, i32)>) -> Seq<PageEntry>
    decreases pages.len(),
{
    if pages.len() == 0 {
        Seq::empty()
    } else {
        told_of_each(pages.drop_last()).push(PageEntry::Size(Some(pages.last().0))).push(
            PageEntry::Rotation(pages.last().1),
        )
    }
}

/// The sizes and rotations of such pages.
proof fn lemma_told_of_each(pages: Seq<(PageSize, i32)>)
    ensures
        sizes(told_of_each(pages)) == pages.map_values(|p: (PageSize, i32)| p.0),
        rotations(told_of_each(pages)) == pages.map_values(|p: (PageSize, i32)| p.1),
        !told_of_each(pages).contains(PageEntry::Size(None)),
    decreases pages.len(),
{
    if pages.len() > 0 {
        let before = told_of_each(pages.drop_last());
        lemma_told_of_each(pages.drop_last());
        let one = before.push(PageEntry::Size(Some(pages.last().0)));
        let both = one.push(PageEntry::Rotation(pages.last().1));
        assert(both.drop_last() =~= one);
        assert(one.drop_last() =~= before);
        assert(sizes(one) == sizes(before).push(pages.last().0));
        assert(rotations(one) == rotations(before));
        assert(sizes(both) =~= pages.map_values(|p: (PageSize, i32)| p.0));
        assert(rotations(both) =~= pages.map_values(|p: (PageSize, i32)| p.1));
        if both.contains(PageEntry::Size(None)) {
            let i = choose|i: int| 0 <= i < both.len() && both[i] == PageEntry::Size(None);
            assert(before[i] == PageEntry::Size(None));
        }
    } else {
        assert(sizes(told_of_each(pages)) =~= pages.map_values(|p: (PageSize, i32)| p.0));
        assert(rotations(told_of_each(pages)) =~= pages.map_values(|p: (PageSize, i32)| p.1));
    }
}

/// A PDF whose every page is told with its size and its rotation has those pages, in
/// their order: a page that lies on its side trades its width for its height, and
/// any other keeps its size.
pub proof fn law_every_page_gets_its_size(pages: Seq<(PageSize, i32)>, i: int)
    requires
        pages.len() <= usize::MAX,
        0 <= i < pages.len(),
    ensures
        all_sizes(pages.len() as usize, told_of_each(pages)) matches Ok(list) && list.len()
            == pages.len() && (if pages[i].1 == 90 || pages[i].1 == 270 {
            list[i].w == pages[i].0.h && list[i].h == pages[i].0.w
        } else {
            list[i] == pages[i].0
        }),
{
    lemma_told_of_each(pages);
    let entries = told_of_each(pages);
    assert(sizes(entries)[i] == pages[i].0);
    assert(rotations(entries)[i] == pages[i].1);
}

/// Without a rotation a page keeps its size.
pub proof fn law_page_without_rotation_keeps_its_size(entries: Seq<PageEntry>, i: int)
    requires
        rotations(entries).len() <= i < sizes(entries).len(),
    ensures
        shown_size(entries, i) == sizes(entries)[i],
{
}

/// One more entry adds what it tells: a size to the sizes, a rotation to the
/// rotations, and nothing to the others.
pub proof fn law_entries_add_up(entries: Seq<PageEntry>, size: PageSize, degrees: i32)
    ensures
        sizes(entries.push(PageEntry::Size(Some(size)))) == sizes(entries).push(size),
        rotations(entries.push(PageEntry::Size(Some(size)))) == rotations(entries),
        sizes(entries.push(PageEntry::Rotation(degrees))) == sizes(entries),
        rotations(entries.push(PageEntry::Rotation(degrees))) == rotations(entries).push(degrees),
        sizes(Seq::empty()) == Seq::<PageSize>::empty(),
        rotations(Seq::empty()) == Seq::<i32>::empty(),
{
    assert(entries.push(PageEntry::Size(Some(size))).drop_last() =~= entries);
    assert(entries.push(PageEntry::Rotation(degrees)).drop_last() =~= entries);
}

/// A PDF opens exactly if every size was read and there are as many as pages; one
/// unreadable size is complained of before a wrong number of them.
pub proof fn law_every_size_is_needed(count: usize, entries: Seq<PageEntry>)
    ensures
        all_sizes(count, entries) is Ok <==> sizes(entries).len() == count && !entries.contains(
            PageEntry::Size(None),
        ),
        entries.contains(PageEntry::Size(None)) ==> all_sizes(count, entries) == Err::<
            Seq<PageSize>,
            Seq<char>,
        >("pdfinfo: bad size"@),
        all_sizes(count, entries) matches Ok(list) ==> list.len() == count,
{
}

/// A complaint about the number of sizes names both numbers, the sizes first.
pub proof fn law_mismatch_names_both_numbers(n: nat, count: nat)
    ensures
        words(size_mismatch(n, count)).len() == 6,
        unsigned(words(size_mismatch(n, count))[1]) == Some(n as int),
        unsigned(words(size_mismatch(n, count))[4]) == Some(count as int),
{
    reveal_strlit("pdfinfo: ");
    reveal_strlit(" sizes for ");
    reveal_strlit(" pages");
    law_decimal_is_plain(n);
    law_decimal_is_plain(count);
    law_decimal_reads_back(n);
    law_decimal_reads_back(count);
    let none: Seq<char> = Seq::empty();
    let blank = seq![' '];
    let tool = seq!['p', 'd', 'f', 'i', 'n', 'f', 'o', ':'];
    let sizes_word = seq!['s', 'i', 'z', 'e', 's'];
    let for_word = seq!['f', 'o', 'r'];
    let pages_word = seq!['p', 'a', 'g', 'e', 's'];
    let t5 = blank + pages_word + none;
    let t4 = blank + decimal(count) + t5;
    let t3 = blank + for_word + t4;
    let t2 = blank + sizes_word + t3;
    let t1 = blank + decimal(n) + t2;
    let whole = none + tool + t1;
    assert("pdfinfo: "@ =~= tool + blank);
    assert(" sizes for "@ =~= blank + sizes_word + blank + for_word + blank);
    assert(" pages"@ =~= blank + pages_word);
    assert(size_mismatch(n, count) =~= whole);
    law_words_stand_between_white_space(none, tool, t1);
    law_words_stand_between_white_space(blank, decimal(n), t2);
    law_words_stand_between_white_space(blank, sizes_word, t3);
    law_words_stand_between_white_space(blank, for_word, t4);
    law_words_stand_between_white_space(blank, decimal(count), t5);
    law_words_stand_between_white_space(blank, pages_word, none);
    law_words_stand_between_white_space(none, tool, none);
    assert(words(whole) =~= seq![
        tool,
        decimal(n),
        sizes_word,
        for_word,
        decimal(count),
        pages_word,
    ]);
}

/// Every page is asked for, from the first to the last.
pub proof fn law_all_pages_are_asked_for(count: usize)
    ensures
        spec_size_arguments(count).len() == 4,
        spec_size_arguments(count)[0] == "-f"@,
        unsigned(spec_size_arguments(count)[1]) == Some(1int),
        spec_size_arguments(count)[2] == "-l"@,
        unsigned(spec_size_arguments(count)[3]) == Some(count as int),
{
    reveal_strlit("1");
    law_digits_have_place_values(Seq::empty(), '1');
    assert("1"@ =~= seq!['1']);
    law_decimal_reads_back(count as nat);
}

/// A text tells of the pages line by line: what its first line tells comes first, and
/// then what the text behind that line tells.
pub proof fn law_text_is_read_line_by_line(line: Seq<char>, rest: Seq<char>)
    requires
        !line.contains('\n'),
        line.len() == 0 || line.last() != '\r',
    ensures
        told_pages(line.push('\n') + rest) == (match line_fact(line) {
            Some(fact) => seq![fact],
            None => Seq::empty(),
        }) + told_pages(rest),
        told_pages(Seq::empty()) == Seq::<PageFact>::empty(),
{
    law_lines_are_split_at_line_feeds(line, rest);
    law_pages_are_told_line_by_line(seq![line], lines(rest), line);
}

/// A rotation that is no number, or none that is small enough, counts as none.
pub proof fn law_unreadable_rotation_is_none(
    blank: Seq<char>,
    n: nat,
    gap: Seq<char>,
    before: Seq<char>,
    word: Seq<char>,
    after: Seq<char>,
)
    requires
        all_white(blank) && all_white(gap) && all_white(before) && all_white(after),
        word.len() > 0 ==> !is_white_space(word[0]) && !is_white_space(word.last()),
        signed(word) matches Some(d) ==> d < i32::MIN || d > i32::MAX,
    ensures
        line_fact(
            "Page "@ + blank + decimal(n) + seq![' '] + gap + ("rot:"@ + (before + word + after)),
        ) == Some(PageFact::Rotation(0)),
{
    reveal_strlit("size:");
    reveal_strlit("rot:");
    let v = before + word + after;
    let field = "rot:"@ + v;
    assert(field[0] == 'r');
    lemma_field_of_line(blank, n, gap, field);
    law_prefix_comes_off(field, "rot:"@, v);
    assert(after_prefix(field, "size:"@) is None) by {
        if field.len() >= 5 {
            assert(field.take(5)[0] == 'r');
        }
    }
    law_trimmed(before, word, after);
}

/// The first line that begins with `Pages:` decides: where what follows is no number, or
/// none that can be counted, there is no page count, whatever stands in later lines.
pub proof fn law_first_count_decides(
    text: Seq<char>,
    front: Seq<Seq<char>>,
    before: Seq<char>,
    word: Seq<char>,
    after: Seq<char>,
    back: Seq<Seq<char>>,
)
    requires
        lines(text) == front.push("Pages:"@ + (before + word + after)) + back,
        forall|i: int| 0 <= i < front.len() ==> after_prefix(#[trigger] front[i], "Pages:"@) is None,
        all_white(before),
        all_white(after),
        word.len() > 0 ==> !is_white_space(word[0]) && !is_white_space(word.last()),
        unsigned(word) matches Some(n) ==> n > usize::MAX,
    ensures
        told_count(text) == Err::<int, Seq<char>>("pdfinfo: no page count"@),
{
    let v = before + word + after;
    let line = "Pages:"@ + v;
    law_prefix_comes_off(line, "Pages:"@, v);
    lemma_count_field(front, line, back);
    law_trimmed(before, word, after);
}

/// Every line gets its own numbers, in its place.
pub proof fn law_lines_get_their_own_numbers(
    lines: Seq<PageLine>,
    numbers: Seq<(Option<Scalar>, Option<Scalar>)>,
    i: int,
)
    requires
        lines.len() == numbers.len(),
        0 <= i < lines.len(),
    ensures
        all_numbered(lines, numbers).len() == lines.len(),
        lines[i] matches PageLine::Size { w: ww, h: hh } ==> (all_numbered(lines, numbers)[i] == (
        match (numbers[i].0, numbers[i].1) {
            (Some(w), Some(h)) => PageEntry::Size(Some(PageSize { w, h })),
            _ => PageEntry::Size(None),
        })),
        lines[i] matches PageLine::Rotation(degrees) ==> all_numbered(lines, numbers)[i]
            == PageEntry::Rotation(degrees),
{
}

/// What a line tells is what it holds, word for word, and a list tells what each of its lines
/// does.
pub proof fn law_lines_are_seen_whole(list: Seq<PageLine>, i: int)
    requires
        0 <= i < list.len(),
    ensures
        told(list).len() == list.len(),
        list[i] matches PageLine::Size { w, h } ==> (told(list)[i] matches PageFact::Size {
            w: ww,
            h: hh,
        } && (w matches Some(s) ==> ww == Some(s@)) && (w is None ==> ww is None) && (h matches Some(
            s,
        ) ==> hh == Some(s@)) && (h is None ==> hh is None)),
        list[i] matches PageLine::Rotation(degrees) ==> told(list)[i] == PageFact::Rotation(
            degrees as int,
        ),
{
}

} // verus!
