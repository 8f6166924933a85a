use vstd::prelude::*;
use vstd::string::{StringExecFns, StringSliceAdditionalSpecFns};

verus! {

/// `String::push` appends one character to the end of the string.
pub assume_specification[ String::push ](s: &mut String, c: char)
    ensures
        final(s)@ == old(s)@.push(c),
;

/// The characters of a string, in order.
pub fn chars_of(s: &str) -> (v: Vec<char>)
    ensures
        v@ == s@,
{
    let mut v: Vec<char> = Vec::new();
    for c in it: s.chars()
        invariant
            it.seq() == s@,
            v@ == it.seq().take(it.index()),
    {
        v.push(c);
    }
    v
}

/// The string made of the characters `chars[from..to]`.
pub fn string_of(chars: &Vec<char>, from: usize, to: usize) -> (s: String)
    requires
        from <= to <= chars@.len(),
    ensures
        s@ == chars@.subrange(from as int, to as int),
{
    let mut s = String::new();
    let mut i: usize = from;
    while i < to
        invariant
            from <= i <= to <= chars@.len(),
            s@ == chars@.subrange(from as int, i as int),
        decreases to - i,
    {
        s.push(chars[i]);
        i = i + 1;
    }
    s
}

/// Whether two strings hold the same characters.
pub fn same_text(a: &str, b: &str) -> (same: bool)
    ensures
        same == (a@ == b@),
{
    String::from_str(a) == String::from_str(b)
}

/// Whether `pat` occurs in `s` at position `i`.
pub open spec fn matches_at(s: Seq<char>, i: int, pat: Seq<char>) -> bool {
    0 <= i && i + pat.len() <= s.len() && s.subrange(i, i + pat.len()) =~= pat
}

/// The least position at or after `from` where `pat` occurs in `s`.
pub open spec fn first_match(s: Seq<char>, pat: Seq<char>, from: int) -> Option<int>
    decreases s.len() - from,
{
    if from < 0 || from + pat.len() > s.len() {
        None
    } else if matches_at(s, from, pat) {
        Some(from)
    } else {
        first_match(s, pat, from + 1)
    }
}

/// `first_match` finds an occurrence, and no occurrence lies before it.
pub proof fn lemma_first_match(s: Seq<char>, pat: Seq<char>, from: int)
    requires
        0 <= from,
    ensures
        match first_match(s, pat, from) {
            Some(i) => from <= i && matches_at(s, i, pat) && forall|k: int|
                from <= k < i ==> !matches_at(s, k, pat),
            None => forall|k: int| from <= k ==> !matches_at(s, k, pat),
        },
    decreases s.len() - from,
{
    if from + pat.len() > s.len() {
    } else if matches_at(s, from, pat) {
    } else {
        lemma_first_match(s, pat, from + 1);
    }
}

/// Searching in what is left of `s` after `p` characters is searching in
/// `s` from `p` on.
pub proof fn lemma_first_match_skip(s: Seq<char>, pat: Seq<char>, p: int, from: int)
    requires
        0 <= p <= s.len(),
        0 <= from,
    ensures
        first_match(s.skip(p), pat, from) == match first_match(s, pat, p + from) {
            Some(i) => Some(i - p),
            None => None,
        },
    decreases s.len() - p - from,
{
    let t = s.skip(p);
    if from + pat.len() > t.len() {
    } else {
        assert(t.subrange(from, from + pat.len()) =~= s.subrange(
            p + from,
            p + from + pat.len(),
        ));
        if matches_at(t, from, pat) {
        } else {
            lemma_first_match_skip(s, pat, p, from + 1);
        }
    }
}

/// Whether `pat` occurs in `hay` at position `i`.
fn occurs_at(hay: &Vec<char>, i: usize, pat: &Vec<char>) -> (b: bool)
    requires
        i + pat@.len() <= hay@.len(),
    ensures
        b == matches_at(hay@, i as int, pat@),
{
    let n: usize = hay.len();
    let mut k: usize = 0;
    while k < pat.len()
        invariant
            k <= pat@.len(),
            i + pat@.len() <= hay@.len() <= usize::MAX,
            hay@.subrange(i as int, i + k) == pat@.take(k as int),
        decreases pat@.len() - k,
    {
        if hay[i + k] != pat[k] {
            assert(hay@.subrange(i as int, i + pat@.len())[k as int] != pat@[k as int]);
            return false;
        }
        assert(hay@.subrange(i as int, i + k + 1) == pat@.take(k + 1)) by {
            assert(hay@.subrange(i as int, i + k + 1) =~= hay@.subrange(i as int, i + k).push(
                hay@[i + k],
            ));
            assert(pat@.take(k + 1) =~= pat@.take(k as int).push(pat@[k as int]));
        }
        k = k + 1;
    }
    assert(pat@.take(pat@.len() as int) =~= pat@);
    true
}

/// Finds the first occurrence of `pat` in `hay[..to]` at or after `from`.
pub fn find_in(hay: &Vec<char>, pat: &Vec<char>, from: usize, to: usize) -> (found: Option<usize>)
    requires
        to <= hay@.len(),
    ensures
        match found {
            Some(i) => first_match(hay@.take(to as int), pat@, from as int) == Some(i as int),
            None => first_match(hay@.take(to as int), pat@, from as int) is None,
        },
{
    if pat.len() > to || from > to - pat.len() {
        return None;
    }
    let ghost window = hay@.take(to as int);
    let last: usize = to - pat.len();
    let mut i: usize = from;
    loop
        invariant
            from <= i <= last,
            to <= hay@.len(),
            window == hay@.take(to as int),
            last == to - pat@.len(),
            first_match(window, pat@, from as int) == first_match(window, pat@, i as int),
        decreases last - i,
    {
        assert(window.subrange(i as int, i + pat@.len()) =~= hay@.subrange(
            i as int,
            i + pat@.len(),
        ));
        if occurs_at(hay, i, pat) {
            return Some(i);
        }
        if i == last {
            assert(first_match(window, pat@, i + 1) is None);
            return None;
        }
        i = i + 1;
    }
}

/// Finds the first occurrence of `pat` in `hay` at or after `from`.
pub fn find(hay: &Vec<char>, pat: &Vec<char>, from: usize) -> (found: Option<usize>)
    ensures
        match found {
            Some(i) => first_match(hay@, pat@, from as int) == Some(i as int),
            None => first_match(hay@, pat@, from as int) is None,
        },
{
    assert(hay@.take(hay@.len() as int) =~= hay@);
    find_in(hay, pat, from, hay.len())
}

/// The line feed that ends a line.
pub open spec fn newline() -> Seq<char> {
    seq!['\n']
}

/// A line without the carriage return that may stand before its line feed.
pub open spec fn strip_cr(line: Seq<char>) -> Seq<char> {
    if line.len() > 0 && line.last() == '\r' {
        line.drop_last()
    } else {
        line
    }
}

/// The lines of a text.
///
/// A line ends at a line feed, or at a carriage return followed by a line
/// feed; neither belongs to the line. What follows the last line feed is a
/// line of its own unless it is empty.
pub open spec fn lines(s: Seq<char>) -> Seq<Seq<char>>
    decreases s.len(),
    via lines_decreases
{
    if s.len() == 0 {
        seq![]
    } else {
        match first_match(s, newline(), 0) {
            None => seq![s],
            Some(end) => seq![strip_cr(s.take(end))] + lines(s.skip(end + 1)),
        }
    }
}

#[via_fn]
proof fn lines_decreases(s: Seq<char>) {
    lemma_first_match(s, newline(), 0);
}

/// The parts of `s` that the ranges mark out.
pub open spec fn range_texts(s: Seq<char>, ranges: Seq<(usize, usize)>) -> Seq<Seq<char>> {
    ranges.map_values(|r: (usize, usize)| s.subrange(r.0 as int, r.1 as int))
}

/// Where each line of `chars` starts and ends.
pub fn line_ranges(chars: &Vec<char>) -> (ranges: Vec<(usize, usize)>)
    ensures
        range_texts(chars@, ranges@) == lines(chars@),
        forall|k: int|
            0 <= k < ranges@.len() ==> (#[trigger] ranges@[k]).0 <= ranges@[k].1 <= chars@.len(),
{
    let n = chars.len();
    let feed: Vec<char> = vec!['\n'];
    assert(feed@ =~= newline());
    let mut ranges: Vec<(usize, usize)> = Vec::new();
    let mut pos: usize = 0;
    assert(chars@.skip(0) =~= chars@);
    assert(range_texts(chars@, ranges@) + lines(chars@) =~= lines(chars@));
    while pos < n
        invariant
            n == chars@.len(),
            feed@ == newline(),
            pos <= n,
            lines(chars@) == range_texts(chars@, ranges@) + lines(chars@.skip(pos as int)),
            forall|k: int|
            0 <= k < ranges@.len() ==> (#[trigger] ranges@[k]).0 <= ranges@[k].1 <= chars@.len(),
        decreases n - pos,
    {
        let ghost rem = chars@.skip(pos as int);
        let ghost before = range_texts(chars@, ranges@);
        proof {
            lemma_first_match_skip(chars@, newline(), pos as int, 0);
            lemma_first_match(chars@, newline(), pos as int);
        }
        match find(chars, &feed, pos) {
            None => {
                ranges.push((pos, n));
                proof {
                    assert(chars@.subrange(pos as int, n as int) =~= rem);
                    assert(range_texts(chars@, ranges@) =~= before + seq![rem]);
                    assert(lines(chars@.skip(n as int)) =~= Seq::<Seq<char>>::empty());
                }
                pos = n;
            },
            Some(end) => {
                let stop = if end > pos && chars[end - 1] == '\r' {
                    end - 1
                } else {
                    end
                };
                ranges.push((pos, stop));
                proof {
                    let line = rem.take(end - pos);
                    assert(line =~= chars@.subrange(pos as int, end as int));
                    assert(strip_cr(line) =~= chars@.subrange(pos as int, stop as int));
                    assert(rem.skip(end - pos + 1) =~= chars@.skip(end + 1));
                    assert(range_texts(chars@, ranges@) =~= before + seq![strip_cr(line)]);
                }
                pos = end + 1;
            },
        }
    }
    assert(range_texts(chars@, ranges@) + Seq::<Seq<char>>::empty() =~= range_texts(
        chars@,
        ranges@,
    ));
    ranges
}

/// The character that writes a digit.
pub open spec fn digit_char(d: nat) -> char {
    if d == 0 {
        '0'
    } else if d == 1 {
        '1'
    } else if d == 2 {
        '2'
    } else if d == 3 {
        '3'
    } else if d == 4 {
        '4'
    } else if d == 5 {
        '5'
    } else if d == 6 {
        '6'
    } else if d == 7 {
        '7'
    } else if d == 8 {
        '8'
    } else {
        '9'
    }
}

/// A number written in decimal digits, without leading zeros.
pub open spec fn decimal_text(n: nat) -> Seq<char>
    decreases n,
{
    if n < 10 {
        seq![digit_char(n)]
    } else {
        decimal_text(n / 10).push(digit_char(n % 10))
    }
}

fn digit_of(d: usize) -> (c: char)
    requires
        d < 10,
    ensures
        c == digit_char(d as nat),
{
    if d == 0 {
        '0'
    } else if d == 1 {
        '1'
    } else if d == 2 {
        '2'
    } else if d == 3 {
        '3'
    } else if d == 4 {
        '4'
    } else if d == 5 {
        '5'
    } else if d == 6 {
        '6'
    } else if d == 7 {
        '7'
    } else if d == 8 {
        '8'
    } else {
        '9'
    }
}

/// Writes a number in decimal digits.
pub fn to_decimal(n: usize) -> (s: String)
    ensures
        s@ == decimal_text(n as nat),
    decreases n,
{
    if n < 10 {
        let mut s = String::new();
        s.push(digit_of(n));
        assert(s@ =~= seq![digit_char(n as nat)]);
        s
    } else {
        let mut s = to_decimal(n / 10);
        s.push(digit_of(n % 10));
        s
    }
}

/// The lines joined again, with a line feed between one and the next.
pub open spec fn joined(lines: Seq<Seq<char>>) -> Seq<char>
    decreases lines.len(),
{
    if lines.len() == 0 {
        Seq::empty()
    } else if lines.len() == 1 {
        lines[0]
    } else {
        joined(lines.drop_last()) + newline() + lines.last()
    }
}

/// The first `count` lines of a text, or all of them where it has fewer,
/// joined with line feeds.
pub open spec fn first_lines(text: Seq<char>, count: nat) -> Seq<char> {
    let all = lines(text);
    joined(
        all.take(
            if count <= all.len() {
                count as int
            } else {
                all.len() as int
            },
        ),
    )
}

/// Keeps the first `count` lines of a text.
pub fn take_lines(text: &str, count: usize) -> (out: String)
    ensures
        out@ == first_lines(text@, count as nat),
{
    let chars = chars_of(text);
    let ranges = line_ranges(&chars);
    let kept: usize = if count <= ranges.len() {
        count
    } else {
        ranges.len()
    };
    let ghost all = lines(text@);
    let mut out = String::new();
    let mut k: usize = 0;
    assert(all.take(0) =~= Seq::<Seq<char>>::empty());
    while k < kept
        invariant
            chars@ == text@,
            all == lines(text@),
            range_texts(chars@, ranges@) == all,
            forall|j: int|
                0 <= j < ranges@.len() ==> (#[trigger] ranges@[j]).0 <= ranges@[j].1
                    <= chars@.len(),
            k <= kept <= ranges@.len(),
            out@ == joined(all.take(k as int)),
        decreases kept - k,
    {
        let (start, end) = ranges[k];
        let ghost before = out@;
        proof {
            assert(range_texts(chars@, ranges@)[k as int] == chars@.subrange(
                start as int,
                end as int,
            ));
            assert(all.take(k + 1).drop_last() =~= all.take(k as int));
            assert(all.take(k + 1).last() == chars@.subrange(start as int, end as int));
        }
        if k > 0 {
            out.push('\n');
            assert(out@ =~= before + newline());
        }
        let ghost prefix = out@;
        let mut i: usize = start;
        while i < end
            invariant
                start <= i <= end <= chars@.len(),
                out@ == prefix + chars@.subrange(start as int, i as int),
            decreases end - i,
        {
            out.push(chars[i]);
            assert(out@ =~= prefix + chars@.subrange(start as int, i + 1));
            i = i + 1;
        }
        proof {
            if k == 0 {
                assert(out@ =~= chars@.subrange(start as int, end as int));
            }
        }
        k = k + 1;
    }
    out
}

/// The number of line feeds in `bytes`.
pub open spec fn line_feeds(bytes: Seq<u8>) -> nat
    decreases bytes.len(),
{
    if bytes.len() == 0 {
        0
    } else {
        line_feeds(bytes.drop_last()) + if bytes.last() == 10u8 {
            1nat
        } else {
            0nat
        }
    }
}

/// The number of the line that holds the byte at `offset`, counted from 1:
/// one more than the number of line feeds before it. An offset behind the
/// end counts as the end, and a number too large for the machine as the
/// largest there is.
pub open spec fn line_at(bytes: Seq<u8>, offset: nat) -> nat {
    let end = if offset <= bytes.len() {
        offset as int
    } else {
        bytes.len() as int
    };
    let feeds = line_feeds(bytes.take(end));
    if feeds < usize::MAX {
        feeds + 1
    } else {
        usize::MAX as nat
    }
}

/// The number of the line of `text` that holds the byte at `offset`.
pub fn line_number(text: &str, offset: usize) -> (line: usize)
    ensures
        line == line_at(text.spec_bytes(), offset as nat),
{
    let bytes = text.as_bytes();
    let end: usize = if offset <= bytes.len() {
        offset
    } else {
        bytes.len()
    };
    let mut feeds: usize = 0;
    let mut i: usize = 0;
    assert(bytes@.take(0) =~= Seq::<u8>::empty());
    while i < end
        invariant
            i <= end <= bytes@.len(),
            feeds == line_feeds(bytes@.take(i as int)),
            feeds <= i,
        decreases end - i,
    {
        assert(bytes@.take(i + 1).drop_last() =~= bytes@.take(i as int));
        if bytes[i] == 10u8 {
            feeds = feeds + 1;
        }
        i = i + 1;
    }
    if feeds < usize::MAX {
        feeds + 1
    } else {
        usize::MAX
    }
}

} // verus!
