//! Character-level operations on string slices: searching, trimming, splitting into lines and
//! reading decimal numbers.
//!
//! A string slice is modelled by its characters, `s@`. Every function here states its result as a
//! function of that sequence.
use vstd::prelude::*;
use vstd::string::*;
use vstd::utf8::*;

verus! {

/// Whether `c` has the Unicode property White_Space.
pub open spec fn white_space(c: char) -> bool {
    ||| '\u{9}' <= c <= '\u{d}'
    ||| c == '\u{20}'
    ||| c == '\u{85}'
    ||| c == '\u{a0}'
    ||| c == '\u{1680}'
    ||| '\u{2000}' <= c <= '\u{200a}'
    ||| c == '\u{2028}'
    ||| c == '\u{2029}'
    ||| c == '\u{202f}'
    ||| c == '\u{205f}'
    ||| c == '\u{3000}'
}

/// The position of the first `c` in `s`; the length of `s` where there is none.
pub open spec fn first_index(s: Seq<char>, c: char) -> int
    decreases s.len(),
{
    if s.len() == 0 || s[0] == c {
        0
    } else {
        1 + first_index(s.drop_first(), c)
    }
}

/// `s` without the white space at its start.
pub open spec fn trimmed_start(s: Seq<char>) -> Seq<char>
    decreases s.len(),
{
    if s.len() > 0 && white_space(s[0]) {
        trimmed_start(s.drop_first())
    } else {
        s
    }
}

/// `s` without the white space at its end.
pub open spec fn trimmed_end(s: Seq<char>) -> Seq<char>
    decreases s.len(),
{
    if s.len() > 0 && white_space(s.last()) {
        trimmed_end(s.drop_last())
    } else {
        s
    }
}

/// `s` without the white space around it.
pub open spec fn trimmed(s: Seq<char>) -> Seq<char> {
    trimmed_end(trimmed_start(s))
}

/// The lines of `s`: what stands between line feeds, where a line feed at the very end opens no
/// further line. A carriage return before a line feed stays with its line; it is white space.
pub open spec fn split_lines(s: Seq<char>) -> Seq<Seq<char>>
    decreases s.len(),
{
    if s.len() == 0 {
        Seq::empty()
    } else {
        let end = first_index(s, '\n');
        if 0 <= end < s.len() {
            seq![s.take(end)] + split_lines(s.skip(end + 1))
        } else {
            seq![s]
        }
    }
}

/// Whether `c` is an ASCII decimal digit.
pub open spec fn digit(c: char) -> bool {
    '0' <= c <= '9'
}

/// The number that the decimal digits `s` write.
pub open spec fn digits_value(s: Seq<char>) -> nat
    decreases s.len(),
{
    if s.len() == 0 {
        0
    } else {
        digits_value(s.drop_last()) * 10 + (s.last() as nat - '0' as nat) as nat
    }
}

/// `s` without the plus sign that a number may start with.
pub open spec fn unsigned_part(s: Seq<char>) -> Seq<char> {
    if s.len() > 0 && s[0] == '+' {
        s.drop_first()
    } else {
        s
    }
}

/// The number that `s` writes: an optional plus sign, then one or more decimal digits, with a
/// value that a `usize` can hold. `None` for any other text.
pub open spec fn decimal(s: Seq<char>) -> Option<usize> {
    let d = unsigned_part(s);
    if d.len() > 0 && (forall|i: int| 0 <= i < d.len() ==> digit(#[trigger] d[i])) && digits_value(
        d,
    ) <= usize::MAX {
        Some(digits_value(d) as usize)
    } else {
        None
    }
}

/// What `first_index` finds: no earlier character is `c`, and the one found is.
pub proof fn lemma_first_index(s: Seq<char>, c: char)
    ensures
        0 <= first_index(s, c) <= s.len(),
        first_index(s, c) < s.len() ==> s[first_index(s, c)] == c,
        forall|j: int| 0 <= j < first_index(s, c) ==> s[j] != c,
    decreases s.len(),
{
    if s.len() > 0 && s[0] != c {
        let rest = s.drop_first();
        lemma_first_index(rest, c);
        assert forall|j: int| 0 <= j < first_index(s, c) implies s[j] != c by {
            if j > 0 {
                assert(s[j] == rest[j - 1]);
            }
        }
    }
}

/// A position with `c` at it and no `c` before it is the one `first_index` finds.
pub proof fn lemma_first_index_unique(s: Seq<char>, c: char, i: int)
    requires
        0 <= i <= s.len(),
        i < s.len() ==> s[i] == c,
        forall|j: int| 0 <= j < i ==> s[j] != c,
    ensures
        first_index(s, c) == i,
{
    lemma_first_index(s, c);
    let k = first_index(s, c);
    if k < i {
        assert(s[k] == c);
    }
}

/// Dropping `n` white space characters from the start changes nothing of `trimmed_start`.
proof fn lemma_trimmed_start_skip(s: Seq<char>, n: int)
    requires
        0 <= n <= s.len(),
        forall|j: int| 0 <= j < n ==> white_space(s[j]),
    ensures
        trimmed_start(s) == trimmed_start(s.skip(n)),
    decreases n,
{
    if n == 0 {
        assert(s.skip(0) =~= s);
    } else {
        assert(white_space(s[0]));
        let rest = s.drop_first();
        assert forall|j: int| 0 <= j < n - 1 implies white_space(rest[j]) by {
            assert(rest[j] == s[j + 1]);
        }
        lemma_trimmed_start_skip(rest, n - 1);
        assert(rest.skip(n - 1) =~= s.skip(n));
    }
}

/// Dropping white space from position `n` on changes nothing of `trimmed_end`.
proof fn lemma_trimmed_end_take(s: Seq<char>, n: int)
    requires
        0 <= n <= s.len(),
        forall|j: int| n <= j < s.len() ==> white_space(s[j]),
    ensures
        trimmed_end(s) == trimmed_end(s.take(n)),
    decreases s.len(),
{
    if n == s.len() {
        assert(s.take(n) =~= s);
    } else {
        assert(white_space(s.last()));
        let rest = s.drop_last();
        lemma_trimmed_end_take(rest, n);
        assert(rest.take(n) =~= s.take(n));
    }
}

/// `trimmed` cuts a stretch out of `s`: it starts and ends with no white space.
pub proof fn lemma_trimmed(s: Seq<char>)
    ensures
        trimmed(s).len() <= s.len(),
        exists|i: int| 0 <= i <= s.len() - trimmed(s).len() && #[trigger] s.subrange(
            i,
            i + trimmed(s).len(),
        ) == trimmed(s),
        trimmed(s).len() > 0 ==> !white_space(trimmed(s)[0]) && !white_space(trimmed(s).last()),
{
    lemma_trimmed_start(s);
    let t = trimmed_start(s);
    lemma_trimmed_end(t);
    let i = s.len() - t.len();
    assert(s.skip(i).take(trimmed(s).len() as int) =~= s.subrange(i, i + trimmed(s).len()));
}

proof fn lemma_trimmed_start(s: Seq<char>)
    ensures
        trimmed_start(s).len() <= s.len(),
        trimmed_start(s) == s.skip(s.len() - trimmed_start(s).len()),
        trimmed_start(s).len() > 0 ==> !white_space(trimmed_start(s)[0]),
    decreases s.len(),
{
    if s.len() > 0 && white_space(s[0]) {
        let rest = s.drop_first();
        lemma_trimmed_start(rest);
        assert(rest.skip(rest.len() - trimmed_start(s).len()) =~= s.skip(
            s.len() - trimmed_start(s).len(),
        ));
    } else {
        assert(s.skip(0) =~= s);
    }
}

proof fn lemma_trimmed_end(s: Seq<char>)
    ensures
        trimmed_end(s).len() <= s.len(),
        trimmed_end(s) == s.take(trimmed_end(s).len() as int),
        trimmed_end(s).len() > 0 ==> !white_space(trimmed_end(s).last()),
        trimmed_end(s).len() > 0 ==> trimmed_end(s)[0] == s[0],
    decreases s.len(),
{
    if s.len() > 0 && white_space(s.last()) {
        let rest = s.drop_last();
        lemma_trimmed_end(rest);
        assert(rest.take(trimmed_end(s).len() as int) =~= s.take(trimmed_end(s).len() as int));
    } else {
        assert(s.take(s.len() as int) =~= s);
    }
}

/// More digits write no smaller number.
proof fn lemma_digits_value_prefix(s: Seq<char>, n: int)
    requires
        0 <= n <= s.len(),
    ensures
        digits_value(s.take(n)) <= digits_value(s),
    decreases s.len(),
{
    if n == s.len() {
        assert(s.take(n) =~= s);
    } else {
        lemma_digits_value_prefix(s.drop_last(), n);
        assert(s.drop_last().take(n) =~= s.take(n));
    }
}

/// Tells whether `c` is white space.
pub fn is_white_space(c: char) -> (r: bool)
    ensures
        r == white_space(c),
{
    ('\u{9}' <= c && c <= '\u{d}') || c == '\u{20}' || c == '\u{85}' || c == '\u{a0}' || c
        == '\u{1680}' || ('\u{2000}' <= c && c <= '\u{200a}') || c == '\u{2028}' || c == '\u{2029}'
        || c == '\u{202f}' || c == '\u{205f}' || c == '\u{3000}'
}

/// Tells whether two slices hold the same characters.
pub fn same_text(a: &str, b: &str) -> (r: bool)
    ensures
        r == (a@ == b@),
{
    broadcast use encode_utf8_decode_utf8;

    let x = a.as_bytes();
    let y = b.as_bytes();
    assert(decode_utf8(x@) == a@);
    assert(decode_utf8(y@) == b@);
    if x.len() != y.len() {
        return false;
    }
    let mut i: usize = 0;
    while i < x.len()
        invariant
            i <= x@.len(),
            x@.len() == y@.len(),
            forall|j: int| 0 <= j < i ==> x@[j] == y@[j],
            x@ == a.spec_bytes(),
            y@ == b.spec_bytes(),
        decreases x@.len() - i,
    {
        if x[i] != y[i] {
            assert(a.spec_bytes()[i as int] != b.spec_bytes()[i as int]);
            return false;
        }
        i += 1;
    }
    assert(x@ =~= y@);
    true
}

/// The position of the first `c` in `s`, counted in characters; the length of `s` where there is
/// none.
pub fn find_char(s: &str, c: char) -> (r: usize)
    ensures
        r == first_index(s@, c),
        r <= s@.len(),
{
    let n: usize = s.unicode_len();
    let mut i: usize = 0;
    for x in it: s.chars()
        invariant
            i == it.index(),
            it.seq() == s@,
            n == s@.len(),
            forall|j: int| 0 <= j < i ==> s@[j] != c,
    {
        if x == c {
            proof {
                lemma_first_index_unique(s@, c, i as int);
            }
            return i;
        }
        i += 1;
    }
    proof {
        lemma_first_index_unique(s@, c, n as int);
    }
    n
}

/// `s` without the white space around it.
pub fn trim<'a>(s: &'a str) -> (r: &'a str)
    ensures
        r@ == trimmed(s@),
{
    let n: usize = s.unicode_len();
    // Everything before `start` is white space; so is everything from `end` on.
    let mut start: usize = n;
    let mut end: usize = n;
    let mut i: usize = 0;
    for x in it: s.chars()
        invariant
            i == it.index(),
            it.seq() == s@,
            n == s@.len(),
            start == n ==> end == n && forall|j: int| 0 <= j < i ==> white_space(s@[j]),
            start < n ==> start < end <= i && !white_space(s@[start as int]) && !white_space(
                s@[end - 1],
            ),
            start < n ==> forall|j: int| 0 <= j < start ==> white_space(s@[j]),
            start < n ==> forall|j: int| end <= j < i ==> white_space(s@[j]),
            start <= n,
    {
        if !is_white_space(x) {
            if start == n {
                start = i;
            }
            end = i + 1;
        }
        i += 1;
    }
    proof {
        lemma_trimmed_start_skip(s@, start as int);
        let t = s@.skip(start as int);
        if start < n {
            assert(t[0] == s@[start as int]);
            assert(trimmed_start(s@) == t);
            assert forall|j: int| end - start <= j < t.len() implies white_space(t[j]) by {
                assert(t[j] == s@[j + start]);
            }
            lemma_trimmed_end_take(t, end - start);
            let u = t.take(end - start);
            assert(u.last() == s@[end - 1]);
            assert(u =~= s@.subrange(start as int, end as int));
        } else {
            assert(t.len() == 0);
            assert(s@.subrange(start as int, end as int) =~= t);
        }
    }
    s.substring_char(start, end)
}

/// The characters of each slice.
pub open spec fn texts(v: Seq<&str>) -> Seq<Seq<char>> {
    v.map_values(|s: &str| s@)
}

/// The lines of `s`, in order.
pub fn lines<'a>(s: &'a str) -> (r: Vec<&'a str>)
    ensures
        texts(r@) == split_lines(s@),
{
    let mut out: Vec<&'a str> = Vec::new();
    let mut rest: &'a str = s;
    let mut left: usize = rest.unicode_len();
    assert(texts(out@) + split_lines(rest@) =~= split_lines(s@));
    while left > 0
        invariant
            left == rest@.len(),
            texts(out@) + split_lines(rest@) == split_lines(s@),
        decreases left,
    {
        let end: usize = find_char(rest, '\n');
        let line = rest.substring_char(0, end);
        assert(line@ =~= rest@.take(end as int));
        let ghost before = out@;
        out.push(line);
        assert(texts(out@) =~= texts(before).push(line@));
        let ghost whole = rest@;
        if end < left {
            rest = rest.substring_char(end + 1, left);
            assert(rest@ =~= whole.skip(end + 1));
            left = left - end - 1;
            assert(split_lines(whole) =~= seq![line@] + split_lines(rest@));
        } else {
            assert(whole.take(end as int) =~= whole);
            rest = rest.substring_char(left, left);
            left = 0;
            assert(split_lines(rest@) =~= Seq::<Seq<char>>::empty());
        }
        assert(texts(out@) + split_lines(rest@) =~= texts(before) + split_lines(whole));
    }
    assert(texts(out@) + split_lines(rest@) =~= texts(out@));
    out
}

/// Reads a decimal number.
pub fn parse_usize(s: &str) -> (r: Option<usize>)
    ensures
        r == decimal(s@),
{
    let n: usize = s.unicode_len();
    if n == 0 {
        return None;
    }
    let start: usize = if s.get_char(0) == '+' {
        1
    } else {
        0
    };
    let body = s.substring_char(start, n);
    let ghost d = unsigned_part(s@);
    assert(body@ =~= d);
    if start == n {
        return None;
    }
    let mut value: usize = 0;
    let mut i: usize = 0;
    assert(d.take(0) =~= Seq::<char>::empty());
    for c in it: body.chars()
        invariant
            i == it.index(),
            it.seq() == d,
            d == unsigned_part(s@),
            d.len() > 0,
            i <= n,
            d.len() <= n,
            value == digits_value(d.take(i as int)),
            forall|j: int| 0 <= j < i ==> digit(#[trigger] d[j]),
    {
        if !('0' <= c && c <= '9') {
            assert(!digit(d[i as int]));
            return None;
        }
        let x: usize = (c as u32 - '0' as u32) as usize;
        let ghost next = d.take(i + 1);
        proof {
            assert(next.drop_last() =~= d.take(i as int));
            assert(next.last() == c);
            lemma_digits_value_prefix(d, i + 1);
        }
        let tens: usize = match value.checked_mul(10) {
            Some(t) => t,
            None => {
                return None;
            },
        };
        value = match tens.checked_add(x) {
            Some(v) => v,
            None => {
                return None;
            },
        };
        i += 1;
    }
    assert(d.take(d.len() as int) =~= d);
    Some(value)
}

/// No line holds a line feed.
pub proof fn law_lines_hold_no_line_feed(s: Seq<char>, i: int)
    requires
        0 <= i < split_lines(s).len(),
    ensures
        !split_lines(s)[i].contains('\n'),
    decreases s.len(),
{
    let end = first_index(s, '\n');
    lemma_first_index(s, '\n');
    if end < s.len() && i > 0 {
        assert(split_lines(s)[i] == split_lines(s.skip(end + 1))[i - 1]);
        law_lines_hold_no_line_feed(s.skip(end + 1), i - 1);
    }
}

/// Trimming takes off nothing but white space, and all of it: what is left stands between white
/// space, and neither starts nor ends with any.
pub proof fn law_trimming_takes_off_only_white_space(
    before: Seq<char>,
    text: Seq<char>,
    behind: Seq<char>,
)
    requires
        forall|i: int| 0 <= i < before.len() ==> white_space(#[trigger] before[i]),
        forall|i: int| 0 <= i < behind.len() ==> white_space(#[trigger] behind[i]),
        text.len() > 0 ==> !white_space(text[0]) && !white_space(text[text.len() - 1]),
    ensures
        trimmed(before + text + behind) == text,
{
    let s = before + text + behind;
    if text.len() > 0 {
        let n = before.len() as int;
        assert forall|j: int| 0 <= j < n implies white_space(s[j]) by {
            assert(s[j] == before[j]);
        }
        lemma_trimmed_start_skip(s, n);
        let t = s.skip(n);
        assert(t =~= text + behind);
        assert(t[0] == text[0]);
        assert(trimmed_start(s) == t);
        assert forall|j: int| text.len() <= j < t.len() implies white_space(t[j]) by {
            assert(t[j] == behind[j - text.len()]);
        }
        lemma_trimmed_end_take(t, text.len() as int);
        assert(t.take(text.len() as int) =~= text);
        assert(trimmed_end(text) == text);
    } else {
        assert forall|j: int| 0 <= j < s.len() implies white_space(s[j]) by {
            if j < before.len() {
                assert(s[j] == before[j]);
            } else {
                assert(s[j] == behind[j - before.len()]);
            }
        }
        lemma_trimmed_start_skip(s, s.len() as int);
        assert(s.skip(s.len() as int) =~= Seq::<char>::empty());
        assert(trimmed(s) =~= text);
    }
}

/// White space is what Unicode calls so: the controls from tab to carriage return and next line, the
/// spaces, and the two separators.
pub proof fn law_white_space_is_that_of_unicode(c: char)
    ensures
        white_space(c) <==> (9 <= c as int <= 13 || c as int == 32 || c as int == 133 || c as int
            == 160 || c as int == 5760 || 8192 <= c as int <= 8202 || c as int == 8232 || c as int
            == 8233 || c as int == 8239 || c as int == 8287 || c as int == 12288),
{
}

/// The first position of a character is the position before which it does not occur, and at which it
/// does or the text ends.
pub proof fn law_first_index_is_the_first(s: Seq<char>, c: char, i: int)
    requires
        0 <= i <= s.len(),
    ensures
        first_index(s, c) == i <==> (i == s.len() || s[i] == c) && forall|j: int|
            0 <= j < i ==> #[trigger] s[j] != c,
{
    lemma_first_index(s, c);
    if (i == s.len() || s[i] == c) && forall|j: int| 0 <= j < i ==> #[trigger] s[j] != c {
        lemma_first_index_unique(s, c, i);
    }
}

/// A text without a line feed is one line, or none where it is empty; a line feed ends a line, and
/// what follows it has its own lines.
pub proof fn law_lines_end_at_line_feeds(line: Seq<char>, rest: Seq<char>)
    requires
        forall|i: int| 0 <= i < line.len() ==> #[trigger] line[i] != '\n',
    ensures
        line.len() == 0 ==> split_lines(line) == Seq::<Seq<char>>::empty(),
        line.len() > 0 ==> split_lines(line) == seq![line],
        split_lines(line + seq!['\n'] + rest) == seq![line] + split_lines(rest),
{
    lemma_first_index_unique(line, '\n', line.len() as int);
    let text = line + seq!['\n'] + rest;
    let n = line.len() as int;
    assert forall|j: int| 0 <= j < n implies text[j] != '\n' by {
        assert(text[j] == line[j]);
    }
    assert(text[n] == '\n');
    lemma_first_index_unique(text, '\n', n);
    assert(text.take(n) =~= line);
    assert(text.skip(n + 1) =~= rest);
}

/// The digits of a number, from the highest on.
pub open spec fn digits_of(n: nat) -> Seq<char>
    decreases n,
{
    if n < 10 {
        seq![('0' as int + n) as char]
    } else {
        digits_of(n / 10).push(('0' as int + n % 10) as char)
    }
}

/// A number that is written in digits, with or without a plus sign and zeros before it, reads back
/// where it fits.
pub proof fn law_written_numbers_read_back(n: usize)
    ensures
        decimal(digits_of(n as nat)) == Some(n),
        decimal(seq!['+'] + digits_of(n as nat)) == Some(n),
        decimal(seq!['0'] + digits_of(n as nat)) == Some(n),
{
    let d = digits_of(n as nat);
    lemma_digits_of(n as nat);
    assert(unsigned_part(d) == d);
    let plus = seq!['+'] + d;
    assert(plus.drop_first() =~= d);
    let zero = seq!['0'] + d;
    assert forall|i: int| 0 <= i < zero.len() implies digit(#[trigger] zero[i]) by {
        if i > 0 {
            assert(zero[i] == d[i - 1]);
        }
    }
    lemma_leading_zero(d);
}

/// What digits write.
proof fn lemma_digits_of(n: nat)
    ensures
        digits_of(n).len() > 0,
        digits_of(n)[0] != '+',
        forall|i: int| 0 <= i < digits_of(n).len() ==> digit(#[trigger] digits_of(n)[i]),
        digits_value(digits_of(n)) == n,
    decreases n,
{
    let d = digits_of(n);
    let c = ('0' as int + n % 10) as char;
    assert(c as int == '0' as int + n % 10);
    if n >= 10 {
        lemma_digits_of(n / 10);
        let init = digits_of(n / 10);
        assert(d.drop_last() =~= init);
        assert(d[0] == init[0]);
        assert forall|i: int| 0 <= i < d.len() implies digit(#[trigger] d[i]) by {
            if i < init.len() {
                assert(d[i] == init[i]);
            }
        }
    } else {
        assert(d.drop_last() =~= Seq::<char>::empty());
        assert(digits_value(d.drop_last()) == 0);
        assert(d.last() == c);
    }
}

/// A zero before digits changes nothing.
proof fn lemma_leading_zero(d: Seq<char>)
    ensures
        digits_value(seq!['0'] + d) == digits_value(d),
    decreases d.len(),
{
    let z = seq!['0'] + d;
    if d.len() == 0 {
        assert(z.drop_last() =~= Seq::<char>::empty());
        assert(digits_value(z.drop_last()) == 0);
    } else {
        assert(z.drop_last() =~= seq!['0'] + d.drop_last());
        assert(z.last() == d.last());
        lemma_leading_zero(d.drop_last());
    }
}

/// A number is read digit by digit: one more digit makes ten times the number and the digit, where
/// that fits. A text without a digit is no number, and neither is one with anything but digits behind
/// its sign.
pub proof fn law_numbers_are_read_digit_by_digit(s: Seq<char>, c: char)
    ensures
        decimal(Seq::empty()) is None,
        decimal(seq!['+']) is None,
        !('0' <= c <= '9') && s.len() > 0 ==> decimal(s.push(c)) is None,
        !('0' <= c <= '9') ==> decimal(seq![c]) is None,
        '0' <= c <= '9' ==> decimal(seq![c]) == Some((c as int - '0' as int) as usize)
            && decimal(seq!['+', c]) == Some((c as int - '0' as int) as usize),
        '0' <= c <= '9' && decimal(s) is Some ==> decimal(s.push(c)) == if decimal(s)->0 * 10 + (
        c as int - '0' as int) <= usize::MAX {
            Some((decimal(s)->0 * 10 + (c as int - '0' as int)) as usize)
        } else {
            None
        },
        s.len() > 0 && s != seq!['+'] && decimal(s) is None ==> decimal(s.push(c)) is None,
{
    let t = s.push(c);
    let d = unsigned_part(s);
    let e = unsigned_part(t);
    if s.len() > 0 {
        assert(t[0] == s[0]);
        assert(e =~= d.push(c));
        assert(e.drop_last() =~= d);
        assert(e.last() == c);
        assert(e[e.len() - 1] == c);
        if '0' <= c <= '9' {
            assert(digit(c));
            if forall|i: int| 0 <= i < d.len() ==> digit(#[trigger] d[i]) {
                assert forall|i: int| 0 <= i < e.len() implies digit(#[trigger] e[i]) by {
                    if i < d.len() {
                        assert(e[i] == d[i]);
                    }
                }
            } else {
                let i = choose|i: int| 0 <= i < d.len() && !digit(#[trigger] d[i]);
                assert(e[i] == d[i]);
            }
            if d.len() == 0 {
                assert(s =~= seq!['+']);
            }
        } else {
            assert(!digit(e[e.len() - 1]));
        }
    }
    assert(seq!['+'].drop_first() =~= Seq::<char>::empty());
    let one = seq![c];
    assert(one.drop_last() =~= Seq::<char>::empty());
    assert(digits_value(one.drop_last()) == 0);
    assert(one.last() == c);
    if '0' <= c <= '9' {
        assert(digit(c));
        assert(unsigned_part(one) == one);
        assert forall|i: int| 0 <= i < one.len() implies digit(#[trigger] one[i]) by {}
        let signed = seq!['+', c];
        assert(signed.drop_first() =~= one);
    } else if c != '+' {
        assert(!digit(one[0]));
    } else {
        assert(one =~= seq!['+']);
    }
}

/// The text of each slice is its text, in order.
pub proof fn law_texts_are_the_slices(v: Seq<&str>, i: int)
    requires
        0 <= i < v.len(),
    ensures
        texts(v).len() == v.len(),
        texts(v)[i] == v[i]@,
{
}

} // verus!
