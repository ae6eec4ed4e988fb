//! Small verified operations on text, stated over sequences of characters.

use vstd::prelude::*;
use vstd::string::{StrSliceExecFns, StringExecFns};
use vstd::utf8::{encode_utf8, encode_utf8_decode_utf8};

verus! {

/// Tells whether two strings hold the same characters.
pub fn str_equal(a: &str, b: &str) -> (same: bool)
    ensures
        same == (a@ == b@),
{
    let x = a.as_bytes();
    let y = b.as_bytes();
    proof {
        encode_utf8_decode_utf8(a@);
        encode_utf8_decode_utf8(b@);
    }
    if x.len() != y.len() {
        return false;
    }
    let mut i: usize = 0;
    while i < x.len()
        invariant
            i <= x@.len(),
            x@.len() == y@.len(),
            x@ == encode_utf8(a@),
            y@ == encode_utf8(b@),
            forall|k: int| 0 <= k < i ==> x@[k] == y@[k],
        decreases x@.len() - i,
    {
        if x[i] != y[i] {
            return false;
        }
        i += 1;
    }
    assert(x@ =~= y@);
    true
}

/// The characters of a string, one by one.
pub fn chars_of(s: &str) -> (chars: Vec<char>)
    ensures
        chars@ == s@,
{
    let mut chars: Vec<char> = Vec::new();
    for c in it: s.chars()
        invariant
            chars@ == it.seq().take(it.index() as int),
            it.seq() == s@,
    {
        chars.push(c);
    }
    chars
}

/// True for the characters with the Unicode property `White_Space`: the
/// controls from tab to carriage return, the space, next line, the
/// no-break spaces, the Ogham space mark, the spaces of fixed width, the
/// line and paragraph separators, the medium mathematical space and the
/// ideographic space.
pub open spec fn is_space(c: char) -> bool {
    let u = c as u32;
    ||| 0x09 <= u <= 0x0D
    ||| u == 0x20
    ||| u == 0x85
    ||| u == 0xA0
    ||| u == 0x1680
    ||| 0x2000 <= u <= 0x200A
    ||| u == 0x2028
    ||| u == 0x2029
    ||| u == 0x202F
    ||| u == 0x205F
    ||| u == 0x3000
}

/// Tells whether a character is white space.
pub fn is_whitespace(c: char) -> (space: bool)
    ensures
        space == is_space(c),
{
    let u: u32 = c as u32;
    (0x09 <= u && u <= 0x0D) || u == 0x20 || u == 0x85 || u == 0xA0 || u == 0x1680 || (0x2000 <= u
        && u <= 0x200A) || u == 0x2028 || u == 0x2029 || u == 0x202F || u == 0x205F || u == 0x3000
}

/// What is stripped from the ends of a string: white space, or one given
/// character.
pub enum Strip {
    /// Every white-space character.
    Space,
    /// This character only.
    Char(char),
}

impl Strip {
    /// True when the character is one that is stripped.
    pub open spec fn takes(self, c: char) -> bool {
        match self {
            Strip::Space => is_space(c),
            Strip::Char(m) => c == m,
        }
    }

    /// Tells whether the character is one that is stripped.
    fn strips(&self, c: char) -> (taken: bool)
        ensures
            taken == self.takes(c),
    {
        match self {
            Strip::Space => is_whitespace(c),
            Strip::Char(m) => c == *m,
        }
    }
}

/// The string without its longest prefix of stripped characters.
pub open spec fn strip_start(s: Seq<char>, what: Strip) -> Seq<char>
    decreases s.len(),
{
    if s.len() > 0 && what.takes(s[0]) {
        strip_start(s.drop_first(), what)
    } else {
        s
    }
}

/// The string without its longest suffix of stripped characters.
pub open spec fn strip_end(s: Seq<char>, what: Strip) -> Seq<char>
    decreases s.len(),
{
    if s.len() > 0 && what.takes(s.last()) {
        strip_end(s.drop_last(), what)
    } else {
        s
    }
}

/// The string without stripped characters at either end.
pub open spec fn strip_both(s: Seq<char>, what: Strip) -> Seq<char> {
    strip_start(strip_end(s, what), what)
}

/// The string without white space at either end.
pub open spec fn trimmed(s: Seq<char>) -> Seq<char> {
    strip_both(s, Strip::Space)
}

/// The string without double quotes at either end.
pub open spec fn unquoted(s: Seq<char>) -> Seq<char> {
    strip_both(s, Strip::Char('"'))
}

/// Finds where the string stands once both ends are stripped.
fn strip_bounds(chars: &Vec<char>, what: &Strip) -> (bounds: (usize, usize))
    ensures
        bounds.0 <= bounds.1 <= chars@.len(),
        chars@.subrange(bounds.0 as int, bounds.1 as int) == strip_both(chars@, *what),
{
    let mut end: usize = chars.len();
    assert(chars@.take(end as int) == chars@);
    while end > 0 && what.strips(chars[end - 1])
        invariant
            end <= chars@.len(),
            strip_end(chars@, *what) == strip_end(chars@.take(end as int), *what),
        decreases end,
    {
        assert(chars@.take(end as int).drop_last() == chars@.take(end - 1));
        end -= 1;
    }
    let ghost kept = chars@.take(end as int);
    let mut start: usize = 0;
    while start < end && what.strips(chars[start])
        invariant
            start <= end <= chars@.len(),
            kept == chars@.take(end as int),
            strip_start(kept, *what) == strip_start(chars@.subrange(start as int, end as int), *what),
        decreases end - start,
    {
        assert(chars@.subrange(start as int, end as int).drop_first() == chars@.subrange(
            start + 1,
            end as int,
        ));
        start += 1;
    }
    (start, end)
}

/// The string without white space at either end.
pub fn trim(s: &str) -> (t: &str)
    ensures
        t@ == trimmed(s@),
{
    let chars = chars_of(s);
    let (start, end) = strip_bounds(&chars, &Strip::Space);
    s.substring_char(start, end)
}

/// The string without the given character at either end.
pub fn trim_matches(s: &str, c: char) -> (t: &str)
    ensures
        t@ == strip_both(s@, Strip::Char(c)),
{
    let chars = chars_of(s);
    let (start, end) = strip_bounds(&chars, &Strip::Char(c));
    s.substring_char(start, end)
}

/// The character sequences of a list of strings.
pub open spec fn views(strings: Seq<String>) -> Seq<Seq<char>> {
    Seq::new(strings.len(), |i: int| strings[i]@)
}

/// The index of the first occurrence of `c`, or the length where there is none.
pub open spec fn first_index_of(s: Seq<char>, c: char) -> int
    decreases s.len(),
{
    if s.len() == 0 || s[0] == c {
        0
    } else {
        1 + first_index_of(s.drop_first(), c)
    }
}

/// `first_index_of` lies within the string, nothing before it is `c`, and
/// the character at it is `c` unless it is the length.
pub proof fn lemma_first_index_of(s: Seq<char>, c: char)
    ensures
        0 <= first_index_of(s, c) <= s.len(),
        forall|j: int| 0 <= j < first_index_of(s, c) ==> s[j] != c,
        first_index_of(s, c) < s.len() ==> s[first_index_of(s, c)] == c,
    decreases s.len(),
{
    if s.len() > 0 && s[0] != c {
        let rest = s.drop_first();
        lemma_first_index_of(rest, c);
        assert forall|j: int| 0 <= j < first_index_of(s, c) implies s[j] != c by {
            if j > 0 {
                assert(s[j] == rest[j - 1]);
            }
        }
    }
}

/// An index with no `c` before it, and with `c` at it or the end of the
/// string, is `first_index_of`.
pub proof fn lemma_first_index_is(s: Seq<char>, c: char, k: int)
    requires
        0 <= k <= s.len(),
        forall|j: int| 0 <= j < k ==> s[j] != c,
        k < s.len() ==> s[k] == c,
    ensures
        first_index_of(s, c) == k,
    decreases s.len(),
{
    if k > 0 {
        let rest = s.drop_first();
        lemma_first_index_is(rest, c, k - 1);
    }
}

/// The pieces between the occurrences of `sep`. There is always at least one
/// piece; a separator at either end gives an empty piece there.
pub open spec fn split_on(s: Seq<char>, sep: char) -> Seq<Seq<char>>
    decreases s.len(),
{
    let k = first_index_of(s, sep);
    if 0 <= k < s.len() {
        seq![s.take(k)] + split_on(s.skip(k + 1), sep)
    } else {
        seq![s]
    }
}

/// The string without one carriage return at its end.
pub open spec fn strip_cr(line: Seq<char>) -> Seq<char> {
    if line.len() > 0 && line.last() == '\r' {
        line.drop_last()
    } else {
        line
    }
}

/// The lines of a text. A line ends at a line feed, or at a carriage return
/// directly before one; neither belongs to the line. What follows the last
/// line feed is a line if it is not empty.
pub open spec fn lines_of(text: Seq<char>) -> Seq<Seq<char>>
    decreases text.len(),
{
    let k = first_index_of(text, '\n');
    if text.len() == 0 {
        Seq::empty()
    } else if 0 <= k < text.len() {
        seq![strip_cr(text.take(k))] + lines_of(text.skip(k + 1))
    } else {
        seq![text]
    }
}

/// The parts in a row, with `sep` between each two.
pub open spec fn join_with(parts: Seq<Seq<char>>, sep: Seq<char>) -> Seq<char>
    decreases parts.len(),
{
    if parts.len() == 0 {
        Seq::empty()
    } else if parts.len() == 1 {
        parts[0]
    } else {
        parts[0] + sep + join_with(parts.drop_first(), sep)
    }
}

/// Joining one more part appends the separator and the part.
pub proof fn lemma_join_push(parts: Seq<Seq<char>>, sep: Seq<char>, part: Seq<char>)
    requires
        parts.len() > 0,
    ensures
        join_with(parts.push(part), sep) == join_with(parts, sep) + sep + part,
    decreases parts.len(),
{
    let longer = parts.push(part);
    assert(longer.drop_first() == parts.drop_first().push(part));
    if parts.len() == 1 {
        assert(join_with(longer.drop_first(), sep) == part);
    } else {
        lemma_join_push(parts.drop_first(), sep, part);
    }
}

/// Splits a string at each occurrence of `sep`.
pub fn split(s: &str, sep: char) -> (parts: Vec<String>)
    ensures
        views(parts@) == split_on(s@, sep),
{
    let chars = chars_of(s);
    let mut parts: Vec<String> = Vec::new();
    let mut start: usize = 0;
    let mut i: usize = 0;
    assert(chars@.skip(0) == chars@);
    while i < chars.len()
        invariant
            start <= i <= chars@.len(),
            chars@ == s@,
            forall|k: int| start <= k < i ==> chars@[k] != sep,
            views(parts@) + split_on(chars@.skip(start as int), sep) == split_on(chars@, sep),
        decreases chars@.len() - i,
    {
        if chars[i] == sep {
            let piece = s.substring_char(start, i).to_owned();
            proof {
                let rest = chars@.skip(start as int);
                lemma_first_index_is(rest, sep, i - start);
                assert(rest.take(i - start) == chars@.subrange(start as int, i as int));
                assert(rest.skip(i - start + 1) == chars@.skip(i + 1));
            }
            parts.push(piece);
            start = i + 1;
        }
        i += 1;
    }
    let piece = s.substring_char(start, i).to_owned();
    proof {
        let rest = chars@.skip(start as int);
        lemma_first_index_is(rest, sep, rest.len() as int);
    }
    parts.push(piece);
    parts
}

/// Splits a text into its lines.
pub fn lines(text: &str) -> (all: Vec<String>)
    ensures
        views(all@) == lines_of(text@),
{
    let chars = chars_of(text);
    let mut all: Vec<String> = Vec::new();
    let mut start: usize = 0;
    let mut i: usize = 0;
    assert(chars@.skip(0) == chars@);
    while i < chars.len()
        invariant
            start <= i <= chars@.len(),
            chars@ == text@,
            forall|k: int| start <= k < i ==> chars@[k] != '\n',
            views(all@) + lines_of(chars@.skip(start as int)) == lines_of(chars@),
        decreases chars@.len() - i,
    {
        if chars[i] == '\n' {
            let end = if i > start && chars[i - 1] == '\r' {
                i - 1
            } else {
                i
            };
            let line = text.substring_char(start, end).to_owned();
            proof {
                let rest = chars@.skip(start as int);
                lemma_first_index_is(rest, '\n', i - start);
                assert(rest.take(i - start) == chars@.subrange(start as int, i as int));
                assert(strip_cr(chars@.subrange(start as int, i as int)) == chars@.subrange(
                    start as int,
                    end as int,
                ));
                assert(rest.skip(i - start + 1) == chars@.skip(i + 1));
            }
            all.push(line);
            start = i + 1;
        }
        i += 1;
    }
    if start < i {
        let line = text.substring_char(start, i).to_owned();
        proof {
            let rest = chars@.skip(start as int);
            lemma_first_index_is(rest, '\n', rest.len() as int);
        }
        all.push(line);
    }
    all
}

/// Puts the parts in a row, with `sep` between each two.
pub fn join(parts: &Vec<String>, sep: &str) -> (joined: String)
    ensures
        joined@ == join_with(views(parts@), sep@),
{
    let mut joined = String::new();
    let mut i: usize = 0;
    while i < parts.len()
        invariant
            i <= parts@.len(),
            joined@ == join_with(views(parts@).take(i as int), sep@),
        decreases parts@.len() - i,
    {
        proof {
            let done = views(parts@).take(i as int);
            assert(views(parts@).take(i + 1) == done.push(parts@[i as int]@));
            if i > 0 {
                lemma_join_push(done, sep@, parts@[i as int]@);
            }
        }
        if i > 0 {
            joined.append(sep);
        }
        joined.append(parts[i].as_str());
        i += 1;
    }
    assert(views(parts@).take(parts@.len() as int) == views(parts@));
    joined
}

/// True when `needle` stands in `hay` at index `at`.
pub open spec fn occurs_at(hay: Seq<char>, needle: Seq<char>, at: int) -> bool {
    &&& 0 <= at
    &&& at + needle.len() <= hay.len()
    &&& hay.subrange(at, at + needle.len()) == needle
}

/// True when `needle` stands somewhere in `hay`.
pub open spec fn occurs_in(hay: Seq<char>, needle: Seq<char>) -> bool {
    exists|at: int| occurs_at(hay, needle, at)
}

/// Tells whether `needle` stands somewhere in `hay`.
pub fn contains(hay: &str, needle: &str) -> (found: bool)
    ensures
        found == occurs_in(hay@, needle@),
{
    let h = chars_of(hay);
    let n = chars_of(needle);
    if n.len() > h.len() {
        return false;
    }
    if n.len() == 0 {
        assert(hay@.subrange(0, 0) == needle@);
        assert(occurs_at(hay@, needle@, 0));
        return true;
    }
    let last: usize = h.len() - n.len();
    let mut at: usize = 0;
    while at <= last
        invariant
            at <= last + 1,
            last == h@.len() - n@.len(),
            n@.len() > 0,
            h@.len() <= usize::MAX,
            h@ == hay@,
            n@ == needle@,
            forall|k: int| 0 <= k < at ==> !occurs_at(h@, n@, k),
        decreases last + 1 - at,
    {
        let mut j: usize = 0;
        while j < n.len() && h[at + j] == n[j]
            invariant
                j <= n@.len(),
                at + n@.len() <= h@.len(),
                h@.len() <= usize::MAX,
                forall|k: int| 0 <= k < j ==> h@[at + k] == n@[k],
            decreases n@.len() - j,
        {
            j += 1;
        }
        if j == n.len() {
            assert(h@.subrange(at as int, at + n@.len()) == n@);
            assert(occurs_at(h@, n@, at as int));
            return true;
        }
        at += 1;
    }
    false
}

/// True for the ten decimal digits.
pub open spec fn is_digit(c: char) -> bool {
    0x30 <= c as u32 <= 0x39
}

/// The number that a run of decimal digits writes.
pub open spec fn digits_value(digits: Seq<char>) -> nat
    decreases digits.len(),
{
    if digits.len() == 0 {
        0
    } else {
        digits_value(digits.drop_last()) * 10 + (digits.last() as u32 - 0x30) as nat
    }
}

/// True when every character is a decimal digit.
pub open spec fn all_digits(s: Seq<char>) -> bool {
    forall|i: int| 0 <= i < s.len() ==> is_digit(#[trigger] s[i])
}

/// The number that a string writes in decimal: one or more digits, with at
/// most a plus sign before them and nothing else around them.
pub open spec fn unsigned_of(s: Seq<char>) -> Option<nat> {
    let digits = if s.len() > 0 && s[0] == '+' {
        s.drop_first()
    } else {
        s
    };
    if digits.len() > 0 && all_digits(digits) {
        Some(digits_value(digits))
    } else {
        None
    }
}

/// The number that a string writes, where it fits the machine's word.
pub open spec fn usize_of(s: Seq<char>) -> Option<usize> {
    match unsigned_of(s) {
        Some(n) => if n <= usize::MAX {
            Some(n as usize)
        } else {
            None
        },
        None => None,
    }
}

/// A run of digits writes a number no smaller than any of its prefixes does.
pub proof fn lemma_digits_value_grows(digits: Seq<char>, k: int)
    requires
        0 <= k <= digits.len(),
        all_digits(digits),
    ensures
        digits_value(digits.take(k)) <= digits_value(digits),
    decreases digits.len(),
{
    if k == digits.len() {
        assert(digits.take(k) == digits);
    } else {
        let shorter = digits.drop_last();
        assert(shorter.take(k) == digits.take(k));
        lemma_digits_value_grows(shorter, k);
    }
}

/// Reads a decimal number: digits only, but for an optional plus sign at the
/// front. `None` where the string is not such a number or the number does
/// not fit.
pub fn parse_usize(s: &str) -> (n: Option<usize>)
    ensures
        n == usize_of(s@),
{
    let chars = chars_of(s);
    let start: usize = if chars.len() > 0 && chars[0] == '+' {
        1
    } else {
        0
    };
    let ghost digits = chars@.skip(start as int);
    assert(digits == if s@.len() > 0 && s@[0] == '+' {
        s@.drop_first()
    } else {
        s@
    });
    if start == chars.len() {
        return None;
    }
    let ghost answer = if all_digits(digits) && digits_value(digits) <= usize::MAX {
        Some(digits_value(digits) as usize)
    } else {
        None
    };
    let mut value: usize = 0;
    let mut i: usize = start;
    while i < chars.len()
        invariant
            start <= i <= chars@.len(),
            digits == chars@.skip(start as int),
            usize_of(s@) == answer,
            answer == if all_digits(digits) && digits_value(digits) <= usize::MAX {
                Some(digits_value(digits) as usize)
            } else {
                None::<usize>
            },
            all_digits(digits.take(i - start)),
            value == digits_value(digits.take(i - start)),
        decreases chars@.len() - i,
    {
        let c = chars[i];
        let u: u32 = c as u32;
        if !(0x30 <= u && u <= 0x39) {
            assert(!is_digit(digits[i - start]));
            return None;
        }
        proof {
            let longer = digits.take(i - start + 1);
            assert(longer.drop_last() == digits.take(i - start));
        }
        let digit: usize = (u - 0x30) as usize;
        let next = match value.checked_mul(10) {
            Some(tens) => tens.checked_add(digit),
            None => None,
        };
        match next {
            Some(v) => {
                value = v;
            },
            None => {
                proof {
                    if all_digits(digits) {
                        lemma_digits_value_grows(digits, i - start + 1);
                    }
                }
                return None;
            },
        }
        i += 1;
    }
    assert(digits.take(i - start) == digits);
    Some(value)
}

/// True when the string holds no line feed.
pub open spec fn single_line(s: Seq<char>) -> bool {
    forall|i: int| 0 <= i < s.len() ==> s[i] != '\n'
}

/// A carriage return at the end of a line is white space: it makes no
/// difference to the trimmed line.
pub proof fn lemma_trimmed_strip_cr(line: Seq<char>)
    ensures
        trimmed(strip_cr(line)) == trimmed(line),
{
}

/// A string without a line feed is one line when ended by a line feed, and
/// one line or none when not.
pub proof fn lemma_lines_of_single(line: Seq<char>)
    requires
        single_line(line),
    ensures
        lines_of(line + seq!['\n']) == seq![strip_cr(line)],
        lines_of(line) == if line.len() == 0 {
            Seq::<Seq<char>>::empty()
        } else {
            seq![line]
        },
{
    let ended = line + seq!['\n'];
    lemma_first_index_is(ended, '\n', line.len() as int);
    assert(ended.take(line.len() as int) == line);
    assert(lines_of(ended.skip(line.len() as int + 1)) == Seq::<Seq<char>>::empty());
    lemma_first_index_is(line, '\n', line.len() as int);
}

/// The lines of a text that goes on after a line feed are the lines up to
/// that line feed, then the lines of what follows.
pub proof fn lemma_lines_of_concat(head: Seq<char>, tail: Seq<char>)
    ensures
        lines_of(head + seq!['\n'] + tail) == lines_of(head + seq!['\n']) + lines_of(tail),
    decreases head.len(),
{
    let ended = head + seq!['\n'];
    let whole = ended + tail;
    let k = first_index_of(head, '\n');
    lemma_first_index_of(head, '\n');
    if k < head.len() {
        let rest = head.skip(k + 1);
        lemma_first_index_is(whole, '\n', k);
        lemma_first_index_is(ended, '\n', k);
        assert(whole.take(k) == head.take(k));
        assert(ended.take(k) == head.take(k));
        assert(whole.skip(k + 1) == rest + seq!['\n'] + tail);
        assert(ended.skip(k + 1) == rest + seq!['\n']);
        lemma_lines_of_concat(rest, tail);
    } else {
        lemma_lines_of_single(head);
        lemma_first_index_is(whole, '\n', head.len() as int);
        assert(whole.take(head.len() as int) == head);
        assert(whole.skip(head.len() as int + 1) == tail);
    }
}

/// No line of a text holds a line feed.
pub proof fn lemma_lines_are_single(text: Seq<char>)
    ensures
        forall|i: int| 0 <= i < lines_of(text).len() ==> single_line(#[trigger] lines_of(text)[i]),
    decreases text.len(),
{
    let k = first_index_of(text, '\n');
    lemma_first_index_of(text, '\n');
    if 0 <= k < text.len() {
        let rest = text.skip(k + 1);
        lemma_lines_are_single(rest);
        assert forall|i: int| 0 <= i < lines_of(text).len() implies single_line(
            #[trigger] lines_of(text)[i],
        ) by {
            if i > 0 {
                assert(lines_of(text)[i] == lines_of(rest)[i - 1]);
            }
        }
    }
}

/// Lines without line feeds, written out with a line feed between each two
/// and read again, come back as they were, but for two things: a line that
/// is not the last loses one carriage return at its end, and an empty last
/// line is not read as a line.
pub proof fn lemma_lines_of_join(all: Seq<Seq<char>>)
    requires
        all.len() > 0,
        forall|i: int| 0 <= i < all.len() ==> single_line(#[trigger] all[i]),
    ensures
        lines_of(join_with(all, seq!['\n'])).len() == if all.last().len() == 0 {
            all.len() - 1
        } else {
            all.len() as int
        },
        forall|i: int|
            0 <= i < lines_of(join_with(all, seq!['\n'])).len() ==> #[trigger] lines_of(
                join_with(all, seq!['\n']),
            )[i] == if i < all.len() - 1 {
                strip_cr(all[i])
            } else {
                all[i]
            },
    decreases all.len(),
{
    let sep = seq!['\n'];
    lemma_lines_of_single(all[0]);
    if all.len() > 1 {
        let rest = all.drop_first();
        lemma_lines_of_join(rest);
        lemma_lines_of_concat(all[0], join_with(rest, sep));
    }
}

} // verus!
