//! What the expansion of a PDF reads from the output of the external PDF
//! utilities, and the names it gives their output files.
use vstd::prelude::*;
use vstd::string::StringExecFns;
use crate::containers::{starts_with, has_prefix_chars};
use crate::text::{is_white_space, push_char};

verus! {

/// The lines of a text, split at each newline; the text after the last
/// newline is the last line, empty when the text ends with a newline.
pub open spec fn split_lines(s: Seq<char>) -> Seq<Seq<char>>
    decreases s.len(),
{
    if s.len() == 0 {
        seq![Seq::empty()]
    } else {
        let ls = split_lines(s.drop_last());
        if s.last() == '\n' {
            ls.push(Seq::empty())
        } else {
            ls.update(ls.len() - 1, ls.last().push(s.last()))
        }
    }
}

/// The number of lines that `str::lines` yields: a final newline does not
/// open another line.
pub open spec fn line_count(s: Seq<char>) -> int {
    let ls = split_lines(s);
    if ls.last().len() == 0 {
        ls.len() - 1
    } else {
        ls.len() as int
    }
}

/// `s` without its trailing white space.
pub open spec fn trim_end_white(s: Seq<char>) -> Seq<char>
    decreases s.len(),
{
    if s.len() > 0 && is_white_space(s.last()) {
        trim_end_white(s.drop_last())
    } else {
        s
    }
}

/// The run of non-white characters at the end of `s`.
pub open spec fn trailing_run(s: Seq<char>) -> Seq<char>
    decreases s.len(),
{
    if s.len() > 0 && !is_white_space(s.last()) {
        trailing_run(s.drop_last()).push(s.last())
    } else {
        Seq::empty()
    }
}

/// The last white-space separated word of a line (empty when it has none).
pub open spec fn last_word(line: Seq<char>) -> Seq<char> {
    trailing_run(trim_end_white(line))
}

pub open spec fn is_digit(c: char) -> bool {
    '0' <= c && c <= '9'
}

/// The number that a run of decimal digits writes.
pub open spec fn digits_value(d: Seq<char>) -> nat
    decreases d.len(),
{
    if d.len() == 0 {
        0
    } else {
        digits_value(d.drop_last()) * 10 + ((d.last() as u32) - ('0' as u32)) as nat
    }
}

/// Whether every character is a decimal digit.
pub open spec fn all_digits(d: Seq<char>) -> bool {
    forall|i: int| 0 <= i < d.len() ==> is_digit(#[trigger] d[i])
}

/// A number's text without its optional leading `+`.
pub open spec fn unsigned_part(t: Seq<char>) -> Seq<char> {
    if t.len() > 0 && t[0] == '+' {
        t.drop_first()
    } else {
        t
    }
}

/// What `str::parse::<u32>` accepts: an optional `+`, then one or more
/// decimal digits writing a number that fits in 32 bits.
pub open spec fn parsed_u32(t: Seq<char>) -> Option<u32> {
    let d = unsigned_part(t);
    if d.len() > 0 && all_digits(d) && digits_value(d) <= u32::MAX {
        Some(digits_value(d) as u32)
    } else {
        None
    }
}

/// Why no page count came out of the output of `pdfinfo`.
#[derive(Clone, Copy, Debug, PartialEq, Eq, Structural)]
pub enum PageCountError {
    /// A `Pages:` line ends in something other than a number.
    Unreadable,
    /// No `Pages:` line, or a count of zero.
    NoPages,
}

/// The page count read line by line: each line that starts with `Pages:`
/// sets it to its last word, and the first such word that is not a number
/// stops the reading.
pub open spec fn pages_read(lines: Seq<Seq<char>>) -> Result<u32, PageCountError>
    decreases lines.len(),
{
    if lines.len() == 0 {
        Ok(0)
    } else {
        match pages_read(lines.drop_last()) {
            Err(e) => Err(e),
            Ok(c) => if starts_with(lines.last(), "Pages:"@) {
                match parsed_u32(last_word(lines.last())) {
                    Some(v) => Ok(v),
                    None => Err(PageCountError::Unreadable),
                }
            } else {
                Ok(c)
            },
        }
    }
}

/// The page count that the output of `pdfinfo` gives, a zero count being
/// an error.
pub open spec fn page_count_of(stdout: Seq<char>) -> Result<u32, PageCountError> {
    match pages_read(split_lines(stdout)) {
        Ok(0) => Err(PageCountError::NoPages),
        r => r,
    }
}

fn white_space_char(c: char) -> (r: bool)
    ensures
        r == is_white_space(c),
{
    let v = c as u32;
    (0x9 <= v && v <= 0xD) || v == 0x20 || v == 0x85 || v == 0xA0 || v == 0x1680 || (0x2000 <= v
        && v <= 0x200A) || v == 0x2028 || v == 0x2029 || v == 0x202F || v == 0x205F || v == 0x3000
}

proof fn lemma_trim_take(s: Seq<char>, i: int)
    requires
        0 <= i <= s.len(),
        forall|k: int| i <= k < s.len() ==> is_white_space(#[trigger] s[k]),
    ensures
        trim_end_white(s) == trim_end_white(s.take(i)),
    decreases s.len() - i,
{
    if i < s.len() {
        assert(s.drop_last().take(i) =~= s.take(i));
        lemma_trim_take(s.drop_last(), i);
    } else {
        assert(s.take(i) =~= s);
    }
}

proof fn lemma_run_take(s: Seq<char>, j: int, e: int)
    requires
        0 <= j <= e <= s.len(),
        forall|k: int| j <= k < e ==> !is_white_space(#[trigger] s[k]),
        j == 0 || is_white_space(s[j - 1]),
    ensures
        trailing_run(s.take(e)) == s.subrange(j, e),
    decreases e - j,
{
    if j < e {
        assert(s.take(e).drop_last() =~= s.take(e - 1));
        lemma_run_take(s, j, e - 1);
        assert(s.subrange(j, e - 1).push(s[e - 1]) =~= s.subrange(j, e));
    } else {
        if j > 0 {
            assert(s.take(e).last() == s[j - 1]);
        } else {
            assert(s.take(e).len() == 0);
        }
        assert(s.subrange(j, e) =~= Seq::<char>::empty());
    }
}

/// The last white-space separated word of a line.
pub fn line_last_word(line: &str) -> (r: String)
    ensures
        r@ == last_word(line@),
{
    let n = line.unicode_len();
    let mut e = n;
    while e > 0 && white_space_char(line.get_char(e - 1))
        invariant
            n == line@.len(),
            e <= n,
            forall|k: int| e <= k < n ==> is_white_space(#[trigger] line@[k]),
        decreases e,
    {
        e = e - 1;
    }
    proof {
        lemma_trim_take(line@, e as int);
        if e > 0 {
            assert(line@.take(e as int).last() == line@[e - 1]);
            assert(!is_white_space(line@[e - 1]));
        }
        assert(trim_end_white(line@.take(e as int)) == line@.take(e as int));
    }
    let mut j = e;
    while j > 0 && !white_space_char(line.get_char(j - 1))
        invariant
            n == line@.len(),
            j <= e <= n,
            forall|k: int| j <= k < e ==> !is_white_space(#[trigger] line@[k]),
        decreases j,
    {
        j = j - 1;
    }
    proof {
        lemma_run_take(line@, j as int, e as int);
    }
    line.substring_char(j, e).to_owned()
}

proof fn lemma_digits_value_grows(d: Seq<char>, i: int)
    requires
        0 <= i < d.len(),
        is_digit(d[i]),
    ensures
        digits_value(d.take(i + 1)) == digits_value(d.take(i)) * 10 + ((d[i] as u32) - ('0' as u32)),
{
    assert(d.take(i + 1).drop_last() =~= d.take(i));
}

proof fn lemma_digits_value_monotone(d: Seq<char>, i: int)
    requires
        0 <= i <= d.len(),
        forall|k: int| 0 <= k < d.len() ==> is_digit(#[trigger] d[k]),
    ensures
        digits_value(d) >= digits_value(d.take(i)),
    decreases d.len() - i,
{
    if i < d.len() {
        lemma_digits_value_monotone(d, i + 1);
        lemma_digits_value_grows(d, i);
        assert(digits_value(d.take(i + 1)) >= digits_value(d.take(i))) by (nonlinear_arith)
            requires
                digits_value(d.take(i + 1)) == digits_value(d.take(i)) * 10 + ((d[i] as u32) - ('0' as u32)),
                (d[i] as u32) >= ('0' as u32),
        ;
    } else {
        assert(d.take(i) =~= d);
    }
}

/// Reads a number as `str::parse::<u32>` does.
pub fn parse_u32(t: &str) -> (r: Option<u32>)
    ensures
        r == parsed_u32(t@),
{
    let n = t.unicode_len();
    let start: usize = if n > 0 && t.get_char(0) == '+' {
        1
    } else {
        0
    };
    let ghost d = unsigned_part(t@);
    assert(d =~= t@.subrange(start as int, n as int));
    if start == n {
        return None;
    }
    let mut value: u64 = 0;
    let mut i = start;
    while i < n
        invariant
            start <= i <= n,
            n == t@.len(),
            d == t@.subrange(start as int, n as int),
            d == unsigned_part(t@),
            forall|k: int| 0 <= k < i - start ==> is_digit(#[trigger] d[k]),
            value == digits_value(d.take(i - start)),
            value <= u32::MAX,
        decreases n - i,
    {
        let c = t.get_char(i);
        assert(c == d[i - start]);
        if !('0' <= c && c <= '9') {
            assert(!is_digit(d[i - start]));
            assert(!all_digits(d));
            return None;
        }
        let digit = (c as u32 - '0' as u32) as u64;
        proof {
            lemma_digits_value_grows(d, i - start);
        }
        if value > (u32::MAX as u64 - digit) / 10 {
            proof {
                assert(value * 10 + digit > u32::MAX) by (nonlinear_arith)
                    requires
                        value > (u32::MAX as u64 - digit) / 10,
                        digit <= 9,
                ;
                if all_digits(d) {
                    lemma_digits_value_monotone(d, i - start + 1);
                    assert(digits_value(d) > u32::MAX);
                }
            }
            return None;
        }
        value = value * 10 + digit;
        i = i + 1;
    }
    assert(d.take(d.len() as int) =~= d);
    Some(value as u32)
}

/// Reads the page count from the output of `pdfinfo`.
pub fn pdf_page_count(stdout: &str) -> (r: Result<u32, PageCountError>)
    ensures
        r == page_count_of(stdout@),
{
    let mut count: u32 = 0;
    let mut line = String::new();
    let ghost mut done: Seq<Seq<char>> = Seq::empty();
    for c in it: stdout.chars()
        invariant
            it.seq() == stdout@,
            split_lines(stdout@.take(it.index() as int)) == done.push(line@),
            pages_read(done) == Ok::<u32, PageCountError>(count),
    {
        assert(stdout@.take(it.index() + 1).drop_last() =~= stdout@.take(it.index() as int));
        assert(stdout@.take(it.index() + 1).last() == c);
        if c == '\n' {
            let r = read_pages_line(line.as_str(), count);
            proof {
                assert(done.push(line@).drop_last() =~= done);
            }
            match r {
                Ok(v) => {
                    count = v;
                },
                Err(e) => {
                    proof {
                        let k = it.index() + 1;
                        let pre = done.push(line@);
                        let all = split_lines(stdout@);
                        lemma_complete_lines_stay(stdout@, k);
                        assert(split_lines(stdout@.take(k)) == pre.push(Seq::<char>::empty()));
                        assert(split_lines(stdout@.take(k)).drop_last() =~= pre);
                        assert(all.take(pre.len() as int) == pre);
                        lemma_pages_read_err_extends(pre, all.skip(pre.len() as int));
                        assert(pre + all.skip(pre.len() as int) =~= all);
                    }
                    return Err(e);
                },
            }
            proof {
                done = done.push(line@);
            }
            line = String::new();
            assert(split_lines(stdout@.take(it.index() + 1)) =~= done.push(line@));
        } else {
            push_char(&mut line, c);
            assert(split_lines(stdout@.take(it.index() + 1)) =~= done.push(line@));
        }
    }
    assert(stdout@.take(stdout@.len() as int) =~= stdout@);
    let last = read_pages_line(line.as_str(), count);
    assert(done.push(line@).drop_last() =~= done);
    match last {
        Ok(0) => Err(PageCountError::NoPages),
        other => other,
    }
}

fn read_pages_line(line: &str, count: u32) -> (r: Result<u32, PageCountError>)
    ensures
        r == if starts_with(line@, "Pages:"@) {
            match parsed_u32(last_word(line@)) {
                Some(v) => Ok(v),
                None => Err(PageCountError::Unreadable),
            }
        } else {
            Ok::<u32, PageCountError>(count)
        },
{
    if has_prefix_chars(line, "Pages:") {
        let word = line_last_word(line);
        match parse_u32(word.as_str()) {
            Some(v) => Ok(v),
            None => Err(PageCountError::Unreadable),
        }
    } else {
        Ok(count)
    }
}

proof fn lemma_complete_lines_stay(s: Seq<char>, i: int)
    requires
        0 <= i <= s.len(),
    ensures
        1 <= split_lines(s.take(i)).len() <= split_lines(s).len(),
        split_lines(s).take(split_lines(s.take(i)).len() - 1) == split_lines(s.take(i)).drop_last(),
    decreases s.len() - i,
{
    lemma_split_lines_nonempty(s.take(i));
    if i == s.len() {
        assert(s.take(i) =~= s);
        assert(split_lines(s).take(split_lines(s).len() - 1) =~= split_lines(s).drop_last());
    } else {
        lemma_complete_lines_stay(s, i + 1);
        let a = split_lines(s.take(i));
        let b = split_lines(s.take(i + 1));
        let all = split_lines(s);
        assert(s.take(i + 1).drop_last() =~= s.take(i));
        assert(a.len() <= b.len());
        assert(b.take(a.len() - 1) =~= a.drop_last());
        assert(all.take(a.len() - 1) =~= b.drop_last().take(a.len() - 1));
        assert(b.drop_last().take(a.len() - 1) =~= b.take(a.len() - 1));
    }
}

proof fn lemma_split_lines_nonempty(s: Seq<char>)
    ensures
        split_lines(s).len() >= 1,
    decreases s.len(),
{
    if s.len() > 0 {
        lemma_split_lines_nonempty(s.drop_last());
    }
}

proof fn lemma_pages_read_err_extends(xs: Seq<Seq<char>>, ys: Seq<Seq<char>>)
    requires
        pages_read(xs) is Err,
    ensures
        pages_read(xs + ys) == pages_read(xs),
    decreases ys.len(),
{
    if ys.len() == 0 {
        assert(xs + ys =~= xs);
    } else {
        lemma_pages_read_err_extends(xs, ys.drop_last());
        assert((xs + ys).drop_last() =~= xs + ys.drop_last());
    }
}

/// The number of images that the listing of `pdfimages -list` shows: its
/// lines less the two heading lines (none when there are fewer).
pub open spec fn listed_images_of(stdout: Seq<char>) -> int {
    if line_count(stdout) >= 2 {
        line_count(stdout) - 2
    } else {
        0
    }
}

/// Counts the images of a `pdfimages -list` listing.
pub fn listed_image_count(stdout: &str) -> (r: usize)
    ensures
        r == listed_images_of(stdout@),
{
    let total = stdout.unicode_len();
    let mut newlines: usize = 0;
    let mut last_len: usize = 0;
    let ghost mut done: Seq<Seq<char>> = Seq::empty();
    let ghost mut cur: Seq<char> = Seq::empty();
    for c in it: stdout.chars()
        invariant
            it.seq() == stdout@,
            split_lines(stdout@.take(it.index() as int)) == done.push(cur),
            newlines == done.len(),
            last_len == cur.len(),
            total == stdout@.len(),
            newlines + last_len <= it.index(),
            it.index() <= total,
    {
        assert(stdout@.take(it.index() + 1).drop_last() =~= stdout@.take(it.index() as int));
        assert(stdout@.take(it.index() + 1).last() == c);
        if c == '\n' {
            proof {
                done = done.push(cur);
                cur = Seq::empty();
            }
            newlines = newlines + 1;
            last_len = 0;
            assert(split_lines(stdout@.take(it.index() + 1)) =~= done.push(cur));
        } else {
            proof {
                cur = cur.push(c);
            }
            last_len = last_len + 1;
            assert(split_lines(stdout@.take(it.index() + 1)) =~= done.push(cur));
        }
    }
    assert(stdout@.take(stdout@.len() as int) =~= stdout@);
    let lines = if last_len == 0 {
        newlines
    } else {
        newlines + 1
    };
    if lines >= 2 {
        lines - 2
    } else {
        0
    }
}

/// The decimal digits of a number.
pub open spec fn decimal_of(n: nat) -> Seq<char>
    decreases n,
{
    if n < 10 {
        seq![(('0' as u32) + n) as char]
    } else {
        decimal_of(n / 10).push((('0' as u32) + n % 10) as char)
    }
}

fn digit_char(d: u64) -> (r: char)
    requires
        d < 10,
    ensures
        r == (('0' as u32) + d) as char,
{
    match d {
        0 => '0',
        1 => '1',
        2 => '2',
        3 => '3',
        4 => '4',
        5 => '5',
        6 => '6',
        7 => '7',
        8 => '8',
        _ => '9',
    }
}

/// Writes a number in decimal, without sign or leading zeros.
pub fn decimal(n: u64) -> (r: String)
    ensures
        r@ == decimal_of(n as nat),
    decreases n,
{
    if n < 10 {
        let mut s = String::new();
        push_char(&mut s, digit_char(n));
        assert(s@ =~= decimal_of(n as nat));
        s
    } else {
        let mut s = decimal(n / 10);
        push_char(&mut s, digit_char(n % 10));
        s
    }
}

/// The name of the file that holds the text of page `page`.
pub fn page_text_name(page: u32) -> (r: String)
    ensures
        r@ == "page "@ + decimal_of(page as nat),
{
    let mut r = "page ".to_owned();
    r.append(decimal(page as u64).as_str());
    r
}

/// The prefix of the files that hold the images of page `page`.
pub fn page_image_prefix(page: u32) -> (r: String)
    ensures
        r@ == "page "@ + decimal_of(page as nat) + " image"@,
{
    let mut r = page_text_name(page);
    r.append(" image");
    r
}

/// `s` left-padded with zeros to three characters.
pub open spec fn padded3(s: Seq<char>) -> Seq<char> {
    if s.len() >= 3 {
        s
    } else {
        Seq::new((3 - s.len()) as nat, |i: int| '0') + s
    }
}

/// What follows the prefix in the name of the `index`-th image that
/// `pdfimages` writes for a page: a dash, the index in at least three digits,
/// and `.ppm`.
pub fn image_file_suffix(index: usize) -> (r: String)
    ensures
        r@ == "-"@ + padded3(decimal_of(index as nat)) + ".ppm"@,
{
    let digits = decimal(index as u64);
    let mut r = "-".to_owned();
    let n = digits.as_str().unicode_len();
    let mut k = n;
    while k < 3
        invariant
            n == digits@.len(),
            n <= k <= 3 || (n > 3 && k == n),
            r@ == "-"@ + Seq::new((k - n) as nat, |i: int| '0'),
        decreases 3 - k,
    {
        r.append("0");
        proof {
            reveal_strlit("0");
        }
        assert(r@ =~= "-"@ + Seq::new((k + 1 - n) as nat, |i: int| '0'));
        k = k + 1;
    }
    r.append(digits.as_str());
    r.append(".ppm");
    proof {
        if n >= 3 {
            assert(Seq::new((k - n) as nat, |i: int| '0') =~= Seq::<char>::empty());
        }
    }
    assert(r@ =~= "-"@ + padded3(decimal_of(index as nat)) + ".ppm"@);
    r
}

} // verus!
