//! The boot configuration file: `key = value` lines with `#` comments.
//!
//! The file is UTF-8 text. In each line, everything from the first `#` on is a comment. What is
//! left, without the white space around it, is either empty, and the line says nothing, or it is an
//! entry: a key, an equals sign and a value, each taken without the white space around it. A key
//! may occur more than once; the last occurrence counts.
use crate::text::{
    find_char, first_index, law_lines_end_at_line_feeds, law_lines_hold_no_line_feed,
    law_trimming_takes_off_only_white_space, lemma_first_index, lemma_first_index_unique,
    lemma_trimmed, lines, same_text, split_lines, texts, trim, trimmed, white_space,
};
use vstd::prelude::*;
use vstd::string::*;
use vstd::utf8::*;

verus! {

/// The error of `core::str::from_utf8`; nothing is read from it.
#[verifier::external_type_specification]
#[verifier::external_body]
pub struct ExUtf8Error(core::str::Utf8Error);

/// `core::str::from_utf8` hands back the bytes as a string slice where they are valid UTF-8, and an
/// error where they are not.
pub assume_specification[ core::str::from_utf8 ](v: &[u8]) -> (r: Result<
    &str,
    core::str::Utf8Error,
>)
    ensures
        r is Ok <==> valid_utf8(v@),
        r matches Ok(s) ==> s.spec_bytes() == v@,
;

/// One `key = value` line.
#[derive(Clone, Copy, Debug)]
pub struct CfgEntry<'a> {
    pub key: &'a str,
    pub value: &'a str,
}

/// The entries of a configuration file, in the order of their lines.
#[derive(Clone, Debug)]
pub struct CfgFile<'a> {
    entries: Vec<CfgEntry<'a>>,
}

/// Why a configuration file cannot be read. Lines are counted from one.
#[derive(Clone, Copy, Debug, Eq, PartialEq)]
pub enum CfgError {
    InvalidUtf8,
    MissingEquals { line: usize },
    EmptyKey { line: usize },
}

/// A key that has to be there is not.
#[derive(Clone, Copy, Debug, Eq, PartialEq)]
pub enum CfgLookupError<'a> {
    MissingRequiredKey { key: &'a str },
}

/// A value that can be read out of a configuration file.
pub trait FromCfg<'a>: Sized {
    type Error;

    fn from_cfg(cfg: &CfgFile<'a>) -> Result<Self, Self::Error>;
}

/// A key and its value, as characters.
pub type Pair = (Seq<char>, Seq<char>);

impl<'a> View for CfgEntry<'a> {
    type V = Pair;

    open spec fn view(&self) -> Pair {
        (self.key@, self.value@)
    }
}

/// The key and the value of each entry.
pub open spec fn pairs(entries: Seq<CfgEntry>) -> Seq<Pair> {
    entries.map_values(|e: CfgEntry| e@)
}

impl<'a> View for CfgFile<'a> {
    type V = Seq<Pair>;

    closed spec fn view(&self) -> Seq<Pair> {
        pairs(self.entries@)
    }
}

/// What stands before the first `#` of a line.
pub open spec fn without_comment(line: Seq<char>) -> Seq<char> {
    line.take(first_index(line, '#'))
}

/// The entry that the trimmed text of line `line_no` writes.
pub open spec fn entry_of(line: Seq<char>, line_no: usize) -> Result<Pair, CfgError> {
    let eq = first_index(line, '=');
    if eq >= line.len() {
        Err(CfgError::MissingEquals { line: line_no })
    } else if trimmed(line.take(eq)).len() == 0 {
        Err(CfgError::EmptyKey { line: line_no })
    } else {
        Ok((trimmed(line.take(eq)), trimmed(line.skip(eq + 1))))
    }
}

/// The part of a line that counts.
pub open spec fn content(line: Seq<char>) -> Seq<char> {
    trimmed(without_comment(line))
}

/// The entries of `lines`, or the error of the first line that has one.
pub open spec fn entries_of(lines: Seq<Seq<char>>) -> Result<Seq<Pair>, CfgError>
    decreases lines.len(),
{
    if lines.len() == 0 {
        Ok(Seq::empty())
    } else {
        match entries_of(lines.drop_last()) {
            Err(e) => Err(e),
            Ok(before) => if content(lines.last()).len() == 0 {
                Ok(before)
            } else {
                match entry_of(content(lines.last()), lines.len() as usize) {
                    Ok(entry) => Ok(before.push(entry)),
                    Err(e) => Err(e),
                }
            },
        }
    }
}

/// The entries of a configuration file.
pub open spec fn parsed(bytes: Seq<u8>) -> Result<Seq<Pair>, CfgError> {
    if valid_utf8(bytes) {
        entries_of(split_lines(decode_utf8(bytes)))
    } else {
        Err(CfgError::InvalidUtf8)
    }
}

/// The value of the last entry with this key.
pub open spec fn last_value(entries: Seq<Pair>, key: Seq<char>) -> Option<Seq<char>>
    decreases entries.len(),
{
    if entries.len() == 0 {
        None
    } else if entries.last().0 == key {
        Some(entries.last().1)
    } else {
        last_value(entries.drop_last(), key)
    }
}

/// The values of all entries with this key, in order.
pub open spec fn all_values(entries: Seq<Pair>, key: Seq<char>) -> Seq<Seq<char>>
    decreases entries.len(),
{
    if entries.len() == 0 {
        Seq::empty()
    } else if entries.last().0 == key {
        all_values(entries.drop_last(), key).push(entries.last().1)
    } else {
        all_values(entries.drop_last(), key)
    }
}

/// An error in the first lines is the error of all of them.
proof fn lemma_error_stays(lines: Seq<Seq<char>>, n: int)
    requires
        0 <= n <= lines.len(),
        entries_of(lines.take(n)) is Err,
    ensures
        entries_of(lines) == entries_of(lines.take(n)),
    decreases lines.len(),
{
    if n == lines.len() {
        assert(lines.take(n) =~= lines);
    } else {
        assert(lines.drop_last().take(n) =~= lines.take(n));
        lemma_error_stays(lines.drop_last(), n);
    }
}

/// Entries with another key after position `n` do not change which value is the last.
proof fn lemma_last_value_take(entries: Seq<Pair>, key: Seq<char>, n: int)
    requires
        0 <= n <= entries.len(),
        forall|j: int| n <= j < entries.len() ==> entries[j].0 != key,
    ensures
        last_value(entries, key) == last_value(entries.take(n), key),
    decreases entries.len(),
{
    if n == entries.len() {
        assert(entries.take(n) =~= entries);
    } else {
        assert(entries.last().0 != key);
        assert(entries.drop_last().take(n) =~= entries.take(n));
        lemma_last_value_take(entries.drop_last(), key, n);
    }
}

/// Cuts the comment off a line.
pub fn strip_comment<'a>(line: &'a str) -> (r: &'a str)
    ensures
        r@ == without_comment(line@),
{
    let end: usize = find_char(line, '#');
    let r = line.substring_char(0, end);
    assert(r@ =~= without_comment(line@));
    r
}

/// Reads the entry in a line that has neither a comment nor white space around it.
pub fn parse_entry<'a>(line: &'a str, line_no: usize) -> (r: Result<CfgEntry<'a>, CfgError>)
    ensures
        match r {
            Ok(entry) => entry_of(line@, line_no) == Ok::<Pair, CfgError>(entry@),
            Err(e) => entry_of(line@, line_no) == Err::<Pair, CfgError>(e),
        },
{
    let n: usize = line.unicode_len();
    let eq: usize = find_char(line, '=');
    if eq == n {
        return Err(CfgError::MissingEquals { line: line_no });
    }
    let left = line.substring_char(0, eq);
    let right = line.substring_char(eq + 1, n);
    assert(left@ =~= line@.take(eq as int));
    assert(right@ =~= line@.skip(eq + 1));
    let key = trim(left);
    let value = trim(right);
    if key.is_empty() {
        return Err(CfgError::EmptyKey { line: line_no });
    }
    Ok(CfgEntry { key, value })
}

impl<'a> CfgFile<'a> {
    /// Reads a configuration file.
    pub fn parse(bytes: &'a [u8]) -> (r: Result<Self, CfgError>)
        ensures
            match r {
                Ok(file) => parsed(bytes@) == Ok::<Seq<Pair>, CfgError>(file@),
                Err(e) => parsed(bytes@) == Err::<Seq<Pair>, CfgError>(e),
            },
    {
        broadcast use encode_utf8_decode_utf8;

        let text = match core::str::from_utf8(bytes) {
            Ok(text) => text,
            Err(_) => {
                return Err(CfgError::InvalidUtf8);
            },
        };
        assert(decode_utf8(bytes@) == text@);
        let all = lines(text);
        let ghost ls = split_lines(text@);
        let mut entries: Vec<CfgEntry<'a>> = Vec::new();
        assert(ls.take(0) =~= Seq::<Seq<char>>::empty());
        assert(pairs(entries@) =~= Seq::<Pair>::empty());
        let mut i: usize = 0;
        while i < all.len()
            invariant
                i <= all@.len(),
                texts(all@) == ls,
                ls.len() == all@.len(),
                parsed(bytes@) == entries_of(ls),
                entries_of(ls.take(i as int)) == Ok::<Seq<Pair>, CfgError>(pairs(entries@)),
            decreases all@.len() - i,
        {
            let line_no: usize = i + 1;
            let line = trim(strip_comment(all[i]));
            let ghost seen = ls.take(line_no as int);
            proof {
                assert(seen.drop_last() =~= ls.take(i as int));
                assert(seen.last() == all@[i as int]@);
            }
            if !line.is_empty() {
                match parse_entry(line, line_no) {
                    Ok(entry) => {
                        let ghost before = entries@;
                        entries.push(entry);
                        assert(pairs(entries@) =~= pairs(before).push(entry@));
                    },
                    Err(e) => {
                        proof {
                            lemma_error_stays(ls, line_no as int);
                        }
                        return Err(e);
                    },
                }
            }
            i += 1;
        }
        assert(ls.take(ls.len() as int) =~= ls);
        Ok(CfgFile { entries })
    }

    /// The value of the last entry with this key.
    pub fn get(&self, key: &'a str) -> (r: Option<&'a str>)
        ensures
            match r {
                Some(value) => last_value(self@, key@) == Some(value@),
                None => last_value(self@, key@) is None,
            },
    {
        let mut i: usize = self.entries.len();
        assert(self@.take(i as int) =~= self@);
        while i > 0
            invariant
                i <= self.entries@.len(),
                self@ == pairs(self.entries@),
                forall|j: int| i <= j < self@.len() ==> (#[trigger] self@[j]).0 != key@,
            decreases i,
        {
            i -= 1;
            let entry = self.entries[i];
            assert(self@[i as int] == entry@);
            if same_text(entry.key, key) {
                proof {
                    lemma_last_value_take(self@, key@, i + 1);
                    assert(self@.take(i + 1).last() == entry@);
                }
                return Some(entry.value);
            }
        }
        proof {
            lemma_last_value_take(self@, key@, 0);
        }
        None
    }

    /// The value of the last entry with this key, or an error that names the key.
    pub fn require(&self, key: &'a str) -> (r: Result<&'a str, CfgLookupError<'a>>)
        ensures
            match r {
                Ok(value) => last_value(self@, key@) == Some(value@),
                Err(e) => last_value(self@, key@) is None && e
                    == (CfgLookupError::MissingRequiredKey { key }),
            },
    {
        match self.get(key) {
            Some(value) => Ok(value),
            None => Err(CfgLookupError::MissingRequiredKey { key }),
        }
    }

    /// The values of all entries with this key, in the order of their lines.
    pub fn get_all(&self, key: &str) -> (r: Vec<&'a str>)
        ensures
            texts(r@) == all_values(self@, key@),
    {
        let mut out: Vec<&'a str> = Vec::new();
        let mut i: usize = 0;
        assert(self@.take(0) =~= Seq::<Pair>::empty());
        assert(texts(out@) =~= Seq::<Seq<char>>::empty());
        while i < self.entries.len()
            invariant
                i <= self.entries@.len(),
                self@ == pairs(self.entries@),
                texts(out@) == all_values(self@.take(i as int), key@),
            decreases self.entries@.len() - i,
        {
            let entry = self.entries[i];
            let ghost seen = self@.take(i + 1);
            proof {
                assert(seen.drop_last() =~= self@.take(i as int));
                assert(seen.last() == entry@);
            }
            if same_text(entry.key, key) {
                let ghost before = out@;
                out.push(entry.value);
                assert(texts(out@) =~= texts(before).push(entry.value@));
            }
            i += 1;
        }
        assert(self@.take(self@.len() as int) =~= self@);
        out
    }

    /// Whether there is an entry with this key.
    pub fn has(&self, key: &str) -> (r: bool)
        ensures
            r == last_value(self@, key@) is Some,
    {
        self.get(key).is_some()
    }

    /// The entries, in the order of their lines.
    pub fn entries(&self) -> (r: &[CfgEntry<'a>])
        ensures
            pairs(r@) == self@,
    {
        self.entries.as_slice()
    }

    /// Reads a value of type `T` out of the file, as `T` defines it.
    pub fn read<T>(&self) -> (r: Result<T, T::Error>) where T: FromCfg<'a>
        ensures
            call_ensures(T::from_cfg, (self,), r),
    {
        T::from_cfg(self)
    }
}

/// What `get` gives back is the last of what `get_all` gives back, and `has` says whether there is
/// any.
pub proof fn law_get_is_the_last_of_get_all(entries: Seq<Pair>, key: Seq<char>)
    ensures
        last_value(entries, key) == if all_values(entries, key).len() == 0 {
            None
        } else {
            Some(all_values(entries, key).last())
        },
    decreases entries.len(),
{
    if entries.len() > 0 && entries.last().0 != key {
        law_get_is_the_last_of_get_all(entries.drop_last(), key);
    }
}

/// A further entry replaces the value of its own key and leaves those of all others as they were.
pub proof fn law_last_entry_counts(entries: Seq<Pair>, entry: Pair, key: Seq<char>)
    ensures
        last_value(entries.push(entry), key) == if entry.0 == key {
            Some(entry.1)
        } else {
            last_value(entries, key)
        },
{
    assert(entries.push(entry).drop_last() =~= entries);
}

/// What stands behind a `#` in a line does not matter.
pub proof fn law_comment_does_not_matter(line: Seq<char>, comment: Seq<char>)
    ensures
        content(line + seq!['#'] + comment) == content(line),
{
    let whole = line + seq!['#'] + comment;
    let i = first_index(line, '#');
    lemma_first_index(line, '#');
    assert(whole[line.len() as int] == '#');
    assert forall|j: int| 0 <= j < i implies whole[j] != '#' by {
        assert(whole[j] == line[j]);
    }
    if i < line.len() {
        assert(whole[i] == line[i]);
    }
    lemma_first_index_unique(whole, '#', i);
    assert(whole.take(i) =~= line.take(i));
}

/// Whether a line says something.
pub open spec fn says_something(line: Seq<char>) -> bool {
    content(line).len() > 0
}

/// What stands on the two sides of the first equals sign of a line.
pub open spec fn sides(line: Seq<char>) -> Pair {
    let eq = first_index(content(line), '=');
    (trimmed(content(line).take(eq)), trimmed(content(line).skip(eq + 1)))
}

/// There is one entry for each line that says something, in the order of the lines.
pub proof fn law_one_entry_per_line(lines: Seq<Seq<char>>)
    requires
        entries_of(lines) is Ok,
    ensures
        entries_of(lines)->Ok_0 == lines.filter(|line: Seq<char>| says_something(line)).map_values(
            |line: Seq<char>| sides(line),
        ),
    decreases lines.len(),
{
    let wanted = |line: Seq<char>| says_something(line);
    let pair = |line: Seq<char>| sides(line);
    reveal(Seq::filter);
    if lines.len() > 0 {
        law_one_entry_per_line(lines.drop_last());
        let before = lines.drop_last().filter(wanted);
        if says_something(lines.last()) {
            assert(lines.filter(wanted) == before.push(lines.last()));
            assert(before.push(lines.last()).map_values(pair) =~= before.map_values(pair).push(
                sides(lines.last()),
            ));
        } else {
            assert(lines.filter(wanted) == before);
        }
    } else {
        assert(lines.filter(wanted).map_values(pair) =~= Seq::<Pair>::empty());
    }
}

/// A file is refused if and only if one of its lines is, and the error is that of the first such
/// line, with its number counted from one.
pub proof fn law_error_is_that_of_the_first_bad_line(lines: Seq<Seq<char>>, n: int)
    requires
        0 < n <= lines.len() <= usize::MAX,
        forall|i: int|
            0 <= i < n - 1 && says_something(#[trigger] lines[i]) ==> entry_of(
                content(lines[i]),
                (i + 1) as usize,
            ) is Ok,
    ensures
        says_something(lines[n - 1]) && entry_of(content(lines[n - 1]), n as usize) is Err
            ==> entries_of(lines) is Err && entries_of(lines)->Err_0 == entry_of(
            content(lines[n - 1]),
            n as usize,
        )->Err_0,
        n == lines.len() && !(says_something(lines[n - 1]) && entry_of(
            content(lines[n - 1]),
            n as usize,
        ) is Err) ==> entries_of(lines) is Ok,
{
    lemma_good_lines(lines, n - 1);
    let seen = lines.take(n);
    assert(seen.drop_last() =~= lines.take(n - 1));
    assert(seen.last() == lines[n - 1]);
    if entries_of(seen) is Err {
        lemma_error_stays(lines, n);
    }
    if n == lines.len() {
        assert(seen =~= lines);
    }
}

/// Lines without an error make up a file without an error.
proof fn lemma_good_lines(lines: Seq<Seq<char>>, n: int)
    requires
        0 <= n <= lines.len() <= usize::MAX,
        forall|i: int|
            0 <= i < n && says_something(#[trigger] lines[i]) ==> entry_of(
                content(lines[i]),
                (i + 1) as usize,
            ) is Ok,
    ensures
        entries_of(lines.take(n)) is Ok,
    decreases n,
{
    if n > 0 {
        lemma_good_lines(lines, n - 1);
        assert(lines.take(n).drop_last() =~= lines.take(n - 1));
        assert(lines.take(n).last() == lines[n - 1]);
    }
}

/// Whether there is no white space at either end of a text.
pub open spec fn is_trimmed(s: Seq<char>) -> bool {
    s.len() > 0 ==> !white_space(s[0]) && !white_space(s.last())
}

/// Whether an entry can stand in a file as it is: there is a key, neither side has white space
/// around it, or a `#` or a line feed in it, and the key has no equals sign in it.
pub open spec fn is_clean(entry: Pair) -> bool {
    &&& entry.0.len() > 0
    &&& is_trimmed(entry.0)
    &&& is_trimmed(entry.1)
    &&& !entry.0.contains('=')
    &&& !entry.0.contains('#')
    &&& !entry.1.contains('#')
    &&& !entry.0.contains('\n')
    &&& !entry.1.contains('\n')
}

/// Every entry that is read from a file is clean.
pub proof fn law_entries_are_clean(bytes: Seq<u8>, i: int)
    requires
        parsed(bytes) is Ok,
        0 <= i < parsed(bytes)->Ok_0.len(),
    ensures
        is_clean(parsed(bytes)->Ok_0[i]),
{
    let text = decode_utf8(bytes);
    assert forall|n: int| 0 <= n < split_lines(text).len() implies !(
    #[trigger] split_lines(text)[n]).contains('\n') by {
        law_lines_hold_no_line_feed(text, n);
    }
    lemma_entries_are_clean(split_lines(text), i);
}

/// Every entry of lines without line feeds is clean.
proof fn lemma_entries_are_clean(lines: Seq<Seq<char>>, i: int)
    requires
        forall|n: int| 0 <= n < lines.len() ==> !(#[trigger] lines[n]).contains('\n'),
        entries_of(lines) is Ok,
        0 <= i < entries_of(lines)->Ok_0.len(),
    ensures
        is_clean(entries_of(lines)->Ok_0[i]),
    decreases lines.len(),
{
    if lines.len() > 0 {
        let before = entries_of(lines.drop_last())->Ok_0;
        if i < before.len() {
            lemma_entries_are_clean(lines.drop_last(), i);
        } else {
            let line = lines.last();
            assert(!lines[lines.len() - 1].contains('\n'));
            let text = content(line);
            let eq = first_index(text, '=');
            lemma_first_index(line, '#');
            lemma_first_index(text, '=');
            lemma_trimmed(without_comment(line));
            lemma_trimmed(text.take(eq));
            lemma_trimmed(text.skip(eq + 1));
            lemma_part_contains(without_comment(line), text, '#');
            lemma_part_contains(text.take(eq), trimmed(text.take(eq)), '#');
            lemma_part_contains(text.take(eq), trimmed(text.take(eq)), '=');
            lemma_part_contains(text.skip(eq + 1), trimmed(text.skip(eq + 1)), '#');
            lemma_part_contains(without_comment(line), text, '\n');
            lemma_part_contains(text.take(eq), trimmed(text.take(eq)), '\n');
            lemma_part_contains(text.skip(eq + 1), trimmed(text.skip(eq + 1)), '\n');
        }
    }
}

/// What is in a part of a text is in the text.
proof fn lemma_part_contains(whole: Seq<char>, part: Seq<char>, c: char)
    requires
        exists|i: int|
            0 <= i <= whole.len() - part.len() && #[trigger] whole.subrange(i, i + part.len())
                == part,
    ensures
        part.contains(c) ==> whole.contains(c),
{
    if part.contains(c) {
        let i = choose|i: int|
            0 <= i <= whole.len() - part.len() && #[trigger] whole.subrange(i, i + part.len())
                == part;
        let j = choose|j: int| 0 <= j < part.len() && part[j] == c;
        assert(whole[i + j] == c);
    }
}

/// A clean entry that is written as `key=value` is read back as it was.
pub proof fn law_clean_entry_reads_back(entry: Pair, line_no: usize)
    requires
        is_clean(entry),
    ensures
        ({
            let line = line_of(entry);
            &&& content(line).len() > 0
            &&& entry_of(content(line), line_no) == Ok::<Pair, CfgError>(entry)
        }),
{
    let key = entry.0;
    let value = entry.1;
    let line = key + seq!['='] + value;
    let eq = key.len() as int;
    assert forall|j: int| 0 <= j < line.len() implies line[j] != '#' by {
        if j < eq {
            assert(line[j] == key[j]);
        } else if j > eq {
            assert(line[j] == value[j - eq - 1]);
        }
    }
    lemma_first_index_unique(line, '#', line.len() as int);
    assert(without_comment(line) =~= line);
    assert(line[0] == key[0]);
    assert(line.last() == if value.len() == 0 {
        '='
    } else {
        value.last()
    });
    lemma_trimmed_already(line);
    assert forall|j: int| 0 <= j < eq implies line[j] != '=' by {
        assert(line[j] == key[j]);
    }
    lemma_first_index_unique(line, '=', eq);
    assert(line.take(eq) =~= key);
    assert(line.skip(eq + 1) =~= value);
    lemma_trimmed_already(key);
    lemma_trimmed_already(value);
}

/// Nothing is taken off a text without white space at its ends.
proof fn lemma_trimmed_already(s: Seq<char>)
    requires
        is_trimmed(s),
    ensures
        trimmed(s) == s,
{
}

/// The line that writes an entry.
pub open spec fn line_of(entry: Pair) -> Seq<char> {
    entry.0 + seq!['='] + entry.1
}

/// The text that writes these entries, one to a line.
pub open spec fn written(entries: Seq<Pair>) -> Seq<char>
    decreases entries.len(),
{
    if entries.len() == 0 {
        Seq::empty()
    } else {
        written(entries.drop_last()) + line_of(entries.last()).push('\n')
    }
}

/// Whether a text ends with its last line: it is empty or has a line feed at its end.
pub open spec fn ends_its_line(text: Seq<char>) -> bool {
    text.len() > 0 ==> text.last() == '\n'
}

/// The lines of two texts, the first of which ends its last line, are the lines of both together.
proof fn lemma_lines_of_both(a: Seq<char>, b: Seq<char>)
    requires
        ends_its_line(a),
    ensures
        split_lines(a + b) == split_lines(a) + split_lines(b),
    decreases a.len(),
{
    if a.len() == 0 {
        assert(a + b =~= b);
        assert(split_lines(a) + split_lines(b) =~= split_lines(b));
    } else {
        let end = first_index(a, '\n');
        lemma_first_index(a, '\n');
        assert(a[a.len() - 1] == '\n');
        assert(end < a.len());
        assert forall|j: int| 0 <= j < end implies (a + b)[j] != '\n' by {
            assert((a + b)[j] == a[j]);
        }
        assert((a + b)[end] == a[end]);
        lemma_first_index_unique(a + b, '\n', end);
        let rest = a.skip(end + 1);
        assert((a + b).take(end) =~= a.take(end));
        assert((a + b).skip(end + 1) =~= rest + b);
        if rest.len() > 0 {
            assert(rest.last() == a.last());
        }
        lemma_lines_of_both(rest, b);
        assert(split_lines(a + b) =~= split_lines(a) + split_lines(b));
    }
}

/// Two runs of lines have the entries of the one and then those of the other.
proof fn lemma_entries_of_both(a: Seq<Seq<char>>, b: Seq<Seq<char>>)
    ensures
        entries_of(a + b) is Ok <==> entries_of(a) is Ok && entries_of(b) is Ok,
        entries_of(a + b) is Ok ==> entries_of(a + b)->Ok_0 == entries_of(a)->Ok_0 + entries_of(
            b,
        )->Ok_0,
        entries_of(a) is Err ==> entries_of(a + b) == entries_of(a),
    decreases b.len(),
{
    if b.len() == 0 {
        assert(a + b =~= a);
        if entries_of(a) is Ok {
            assert(entries_of(a)->Ok_0 + Seq::<Pair>::empty() =~= entries_of(a)->Ok_0);
        }
    } else {
        assert((a + b).drop_last() =~= a + b.drop_last());
        assert((a + b).last() == b.last());
        lemma_entries_of_both(a, b.drop_last());
        if entries_of(a) is Ok && entries_of(b) is Ok {
            assert(entries_of(a + b)->Ok_0 =~= entries_of(a)->Ok_0 + entries_of(b)->Ok_0);
        }
    }
}

/// The encoding of two texts is that of the one and then that of the other.
proof fn lemma_encoding_of_both(a: Seq<char>, b: Seq<char>)
    ensures
        encode_utf8(a + b) == encode_utf8(a) + encode_utf8(b),
    decreases a.len(),
{
    if a.len() == 0 {
        assert(a + b =~= b);
        assert(encode_utf8(a) + encode_utf8(b) =~= encode_utf8(b));
    } else {
        assert((a + b)[0] == a[0]);
        assert((a + b).drop_first() =~= a.drop_first() + b);
        lemma_encoding_of_both(a.drop_first(), b);
        assert(encode_utf8(a + b) =~= encode_utf8(a) + encode_utf8(b));
    }
}

/// A text that is written in UTF-8 has the entries of its lines.
proof fn lemma_parsed_text(text: Seq<char>)
    ensures
        parsed(encode_utf8(text)) == entries_of(split_lines(text)),
{
    encode_utf8_valid_utf8(text);
    encode_utf8_decode_utf8(text);
}

/// Two files, the first of which ends its last line, can be read together if and only if each of
/// them can be read. Together they then have the entries of the first and those of the second. An
/// error of the first is the error of both.
pub proof fn law_joining_files_joins_their_entries(a: Seq<u8>, b: Seq<u8>)
    requires
        valid_utf8(a),
        valid_utf8(b),
        ends_its_line(decode_utf8(a)),
    ensures
        parsed(a + b) is Ok <==> parsed(a) is Ok && parsed(b) is Ok,
        parsed(a + b) is Ok ==> parsed(a + b)->Ok_0 == parsed(a)->Ok_0 + parsed(b)->Ok_0,
        parsed(a) is Err ==> parsed(a + b) == parsed(a),
{
    let x = decode_utf8(a);
    let y = decode_utf8(b);
    decode_utf8_encode_utf8(a);
    decode_utf8_encode_utf8(b);
    lemma_encoding_of_both(x, y);
    lemma_parsed_text(x);
    lemma_parsed_text(y);
    lemma_parsed_text(x + y);
    lemma_lines_of_both(x, y);
    lemma_entries_of_both(split_lines(x), split_lines(y));
}

/// A file that is written from clean entries reads back as these entries.
pub proof fn law_written_file_reads_back(entries: Seq<Pair>)
    requires
        forall|i: int| 0 <= i < entries.len() ==> is_clean(#[trigger] entries[i]),
    ensures
        parsed(encode_utf8(written(entries))) == Ok::<Seq<Pair>, CfgError>(entries),
{
    lemma_written_lines(entries);
    lemma_parsed_text(written(entries));
}

/// The lines of a text that is written from clean entries have these entries.
proof fn lemma_written_lines(entries: Seq<Pair>)
    requires
        forall|i: int| 0 <= i < entries.len() ==> is_clean(#[trigger] entries[i]),
    ensures
        ends_its_line(written(entries)),
        entries_of(split_lines(written(entries))) == Ok::<Seq<Pair>, CfgError>(entries),
    decreases entries.len(),
{
    if entries.len() == 0 {
        assert(entries =~= Seq::<Pair>::empty());
    } else {
        let fewer = entries.drop_last();
        let entry = entries[entries.len() - 1];
        let line = line_of(entry);
        assert forall|i: int| 0 <= i < fewer.len() implies is_clean(#[trigger] fewer[i]) by {
            assert(fewer[i] == entries[i]);
        }
        lemma_written_lines(fewer);
        assert(is_clean(entry));
        lemma_one_line(line, entry);
        lemma_lines_of_both(written(fewer), line.push('\n'));
        lemma_entries_of_both(split_lines(written(fewer)), split_lines(line.push('\n')));
        assert(fewer + seq![entry] =~= entries);
        assert(written(entries).last() == '\n');
    }
}

/// The line of a clean entry, with a line feed behind it, has this entry.
proof fn lemma_one_line(line: Seq<char>, entry: Pair)
    requires
        is_clean(entry),
        line == line_of(entry),
    ensures
        entries_of(split_lines(line.push('\n'))) == Ok::<Seq<Pair>, CfgError>(seq![entry]),
{
    let text = line.push('\n');
    assert forall|j: int| 0 <= j < line.len() implies text[j] != '\n' by {
        if j < entry.0.len() {
            assert(text[j] == entry.0[j]);
        } else if j > entry.0.len() {
            assert(text[j] == entry.1[j - entry.0.len() - 1]);
        }
    }
    lemma_first_index_unique(text, '\n', line.len() as int);
    assert(text.take(line.len() as int) =~= line);
    assert(text.skip(line.len() as int + 1) =~= Seq::<char>::empty());
    let lines = split_lines(text);
    assert(split_lines(Seq::<char>::empty()) =~= Seq::<Seq<char>>::empty());
    assert(lines == seq![line] + split_lines(text.skip(line.len() as int + 1)));
    assert(lines =~= seq![line]);
    law_clean_entry_reads_back(entry, 1);
    assert(lines.drop_last() =~= Seq::<Seq<char>>::empty());
    assert(entries_of(lines.drop_last()) == Ok::<Seq<Pair>, CfgError>(Seq::empty()));
    assert(Seq::<Pair>::empty().push(entry) =~= seq![entry]);
}

// ---------------------------------------------------------------------------------------------
// What each line does, said of its characters
// ---------------------------------------------------------------------------------------------
/// Whether these characters are white space within a line.
pub open spec fn is_blank(s: Seq<char>) -> bool {
    forall|i: int| 0 <= i < s.len() ==> white_space(#[trigger] s[i]) && s[i] != '\n'
}

/// Whether these characters are a comment, or nothing.
pub open spec fn is_comment(s: Seq<char>) -> bool {
    &&& s.len() > 0 ==> s[0] == '#'
    &&& !s.contains('\n')
}

/// A line without a line feed, alone or with one behind it, has its own entry or error.
proof fn lemma_file_of_one_line(line: Seq<char>)
    requires
        !line.contains('\n'),
    ensures
        parsed(encode_utf8(line)) == entries_of(seq![line]),
        parsed(encode_utf8(line.push('\n'))) == entries_of(seq![line]),
{
    assert forall|i: int| 0 <= i < line.len() implies #[trigger] line[i] != '\n' by {
        assert(line.contains(line[i]));
    }
    law_lines_end_at_line_feeds(line, Seq::empty());
    assert(line.push('\n') =~= line + seq!['\n'] + Seq::<char>::empty());
    assert(split_lines(Seq::<char>::empty()) =~= Seq::<Seq<char>>::empty());
    assert(seq![line] + Seq::<Seq<char>>::empty() =~= seq![line]);
    lemma_parsed_text(line);
    lemma_parsed_text(line.push('\n'));
    if line.len() == 0 {
        let one = seq![line];
        assert(one.drop_last() =~= Seq::<Seq<char>>::empty());
        assert(one.last() == line);
        lemma_content(line, Seq::empty());
        assert(line + Seq::<char>::empty() =~= line);
        lemma_trimmed_already(line);
        assert(entries_of(Seq::<Seq<char>>::empty()) == Ok::<Seq<Pair>, CfgError>(Seq::empty()));
    }
}

/// What counts of a line is what stands before its comment, without the white space around it.
proof fn lemma_content(text: Seq<char>, comment: Seq<char>)
    requires
        !text.contains('#'),
        is_comment(comment),
    ensures
        content(text + comment) == trimmed(text),
{
    let line = text + comment;
    assert forall|j: int| 0 <= j < text.len() implies line[j] != '#' by {
        assert(line[j] == text[j]);
        assert(text.contains(text[j]));
    }
    if comment.len() > 0 {
        assert(line[text.len() as int] == comment[0]);
    }
    lemma_first_index_unique(line, '#', text.len() as int);
    assert(line.take(text.len() as int) =~= text);
}

/// White space holds none of the characters that mean something.
proof fn lemma_blank(s: Seq<char>, c: char)
    requires
        is_blank(s),
        c == '#' || c == '=' || c == '\n',
    ensures
        !s.contains(c),
{
    if s.contains(c) {
        let i = choose|i: int| 0 <= i < s.len() && s[i] == c;
        assert(white_space(s[i]));
    }
}

/// What neither of two texts holds, both together do not hold.
proof fn lemma_in_neither(a: Seq<char>, b: Seq<char>, c: char)
    requires
        !a.contains(c),
        !b.contains(c),
    ensures
        !(a + b).contains(c),
{
    if (a + b).contains(c) {
        let i = choose|i: int| 0 <= i < (a + b).len() && (a + b)[i] == c;
        if i < a.len() {
            assert(a.contains(a[i]));
        } else {
            assert(b.contains(b[i - a.len()]));
        }
    }
}

/// A line with one entry: however much white space stands around the key and the value, and whatever
/// the comment says, the entry is the key and the value.
pub proof fn law_line_with_an_entry_is_read(
    entry: Pair,
    indent: Seq<char>,
    before_equals: Seq<char>,
    behind_equals: Seq<char>,
    trail: Seq<char>,
    comment: Seq<char>,
)
    requires
        is_clean(entry),
        is_blank(indent),
        is_blank(before_equals),
        is_blank(behind_equals),
        is_blank(trail),
        is_comment(comment),
    ensures
        ({
            let line = indent + entry.0 + before_equals + seq!['='] + behind_equals + entry.1 + trail
                + comment;
            &&& parsed(encode_utf8(line)) == Ok::<Seq<Pair>, CfgError>(seq![entry])
            &&& parsed(encode_utf8(line.push('\n'))) == Ok::<Seq<Pair>, CfgError>(seq![entry])
        }),
{
    let key = entry.0;
    let value = entry.1;
    let left = key + before_equals;
    let right = behind_equals + value + trail;
    let text = indent + left + seq!['='] + right;
    let line = indent + key + before_equals + seq!['='] + behind_equals + value + trail + comment;
    assert(line =~= text + comment);
    lemma_no_marks(indent, key, before_equals, behind_equals, value, trail, '#');
    lemma_no_marks(indent, key, before_equals, behind_equals, value, trail, '\n');
    lemma_in_neither(text, comment, '\n');
    lemma_file_of_one_line(line);
    lemma_content(text, comment);
    let eq = left.len() as int;
    let core = if value.len() > 0 {
        left + seq!['='] + behind_equals + value
    } else {
        left + seq!['=']
    };
    let behind = if value.len() > 0 {
        trail
    } else {
        behind_equals + trail
    };
    assert(text =~= indent + core + behind);
    assert(core[0] == key[0]);
    assert(core[core.len() - 1] == if value.len() > 0 {
        value[value.len() - 1]
    } else {
        '='
    });
    assert forall|i: int| 0 <= i < behind.len() implies white_space(#[trigger] behind[i]) by {
        if value.len() == 0 && i < behind_equals.len() {
            assert(behind[i] == behind_equals[i]);
        } else if value.len() == 0 {
            assert(behind[i] == trail[i - behind_equals.len()]);
        }
    }
    law_trimming_takes_off_only_white_space(indent, core, behind);
    assert(content(line) == core);
    lemma_blank(before_equals, '=');
    lemma_in_neither(key, before_equals, '=');
    assert forall|j: int| 0 <= j < eq implies core[j] != '=' by {
        assert(core[j] == left[j]);
        assert(left.contains(left[j]));
    }
    assert(core[eq] == '=');
    lemma_first_index_unique(core, '=', eq);
    assert(core.take(eq) =~= Seq::<char>::empty() + key + before_equals);
    law_trimming_takes_off_only_white_space(Seq::empty(), key, before_equals);
    assert(core.skip(eq + 1) =~= if value.len() > 0 {
        behind_equals + value + Seq::<char>::empty()
    } else {
        Seq::<char>::empty()
    });
    if value.len() > 0 {
        law_trimming_takes_off_only_white_space(behind_equals, value, Seq::empty());
    } else {
        lemma_trimmed_already(Seq::<char>::empty());
        assert(value =~= Seq::<char>::empty());
    }
    lemma_one(line);
    assert(Seq::<Pair>::empty().push(entry) =~= seq![entry]);
}

/// A line with an entry holds no mark but its equals sign.
proof fn lemma_no_marks(
    indent: Seq<char>,
    key: Seq<char>,
    before_equals: Seq<char>,
    behind_equals: Seq<char>,
    value: Seq<char>,
    trail: Seq<char>,
    c: char,
)
    requires
        is_blank(indent),
        is_blank(before_equals),
        is_blank(behind_equals),
        is_blank(trail),
        !key.contains(c),
        !value.contains(c),
        c == '#' || c == '\n',
    ensures
        !(indent + (key + before_equals) + seq!['='] + (behind_equals + value + trail)).contains(c),
{
    lemma_blank(indent, c);
    lemma_blank(before_equals, c);
    lemma_blank(behind_equals, c);
    lemma_blank(trail, c);
    assert(!seq!['='].contains(c)) by {
        if seq!['='].contains(c) {
            let i = choose|i: int| 0 <= i < 1 && seq!['='][i] == c;
            assert(i == 0);
        }
    }
    lemma_in_neither(key, before_equals, c);
    lemma_in_neither(indent, key + before_equals, c);
    lemma_in_neither(indent + (key + before_equals), seq!['='], c);
    lemma_in_neither(behind_equals, value, c);
    lemma_in_neither(behind_equals + value, trail, c);
    lemma_in_neither(
        indent + (key + before_equals) + seq!['='],
        behind_equals + value + trail,
        c,
    );
}

/// The entries of one line.
proof fn lemma_one(line: Seq<char>)
    ensures
        entries_of(seq![line]) == if content(line).len() == 0 {
            Ok::<Seq<Pair>, CfgError>(Seq::empty())
        } else {
            match entry_of(content(line), 1) {
                Ok(entry) => Ok(Seq::empty().push(entry)),
                Err(e) => Err(e),
            }
        },
{
    let one = seq![line];
    assert(one.drop_last() =~= Seq::<Seq<char>>::empty());
    assert(one.last() == line);
    assert(entries_of(Seq::<Seq<char>>::empty()) == Ok::<Seq<Pair>, CfgError>(Seq::empty()));
}

/// A line of white space, with or without a comment, says nothing.
pub proof fn law_blank_lines_say_nothing(blank: Seq<char>, comment: Seq<char>)
    requires
        is_blank(blank),
        is_comment(comment),
    ensures
        parsed(encode_utf8(blank + comment)) == Ok::<Seq<Pair>, CfgError>(Seq::empty()),
        parsed(encode_utf8((blank + comment).push('\n'))) == Ok::<Seq<Pair>, CfgError>(
            Seq::empty(),
        ),
{
    let line = blank + comment;
    lemma_blank(blank, '#');
    lemma_blank(blank, '\n');
    lemma_in_neither(blank, comment, '\n');
    lemma_file_of_one_line(line);
    lemma_content(blank, comment);
    assert(blank =~= blank + Seq::<char>::empty() + Seq::<char>::empty());
    law_trimming_takes_off_only_white_space(blank, Seq::empty(), Seq::empty());
    lemma_one(line);
}

/// A line that says something before its comment, but has no equals sign there, is refused.
pub proof fn law_lines_without_equals_are_refused(text: Seq<char>, comment: Seq<char>, i: int)
    requires
        !text.contains('='),
        !text.contains('#'),
        !text.contains('\n'),
        0 <= i < text.len(),
        !white_space(text[i]),
        is_comment(comment),
    ensures
        parsed(encode_utf8(text + comment)) == Err::<Seq<Pair>, CfgError>(
            CfgError::MissingEquals { line: 1 },
        ),
        parsed(encode_utf8((text + comment).push('\n'))) == Err::<Seq<Pair>, CfgError>(
            CfgError::MissingEquals { line: 1 },
        ),
{
    let line = text + comment;
    lemma_in_neither(text, comment, '\n');
    lemma_file_of_one_line(line);
    lemma_content(text, comment);
    lemma_something_stays(text, i);
    lemma_trimmed(text);
    let said = trimmed(text);
    lemma_part_contains(text, said, '=');
    assert forall|j: int| 0 <= j < said.len() implies said[j] != '=' by {
        assert(said.contains(said[j]));
    }
    lemma_first_index_unique(said, '=', said.len() as int);
    lemma_one(line);
}

/// Trimming does not take off all of a text that is not all white space.
proof fn lemma_something_stays(text: Seq<char>, i: int)
    requires
        0 <= i < text.len(),
        !white_space(text[i]),
    ensures
        trimmed(text).len() > 0,
    decreases text.len(),
{
    if white_space(text[0]) {
        assert(text.drop_first()[i - 1] == text[i]);
        lemma_something_stays(text.drop_first(), i - 1);
        assert(trimmed(text) == trimmed(text.drop_first()));
    } else {
        lemma_end_stays(text);
    }
}

/// Trimming the end of a text stops at its first character, if that is not white space.
proof fn lemma_end_stays(text: Seq<char>)
    requires
        text.len() > 0,
        !white_space(text[0]),
    ensures
        crate::text::trimmed_end(text).len() > 0,
    decreases text.len(),
{
    if white_space(text.last()) {
        assert(text.drop_last()[0] == text[0]);
        lemma_end_stays(text.drop_last());
    }
}

/// A line with nothing before its equals sign is refused, whatever stands behind it.
pub proof fn law_lines_without_a_key_are_refused(
    indent: Seq<char>,
    behind_equals: Seq<char>,
    comment: Seq<char>,
)
    requires
        is_blank(indent),
        !behind_equals.contains('#'),
        !behind_equals.contains('\n'),
        is_comment(comment),
    ensures
        ({
            let line = indent + seq!['='] + behind_equals + comment;
            &&& parsed(encode_utf8(line)) == Err::<Seq<Pair>, CfgError>(
                CfgError::EmptyKey { line: 1 },
            )
            &&& parsed(encode_utf8(line.push('\n'))) == Err::<Seq<Pair>, CfgError>(
                CfgError::EmptyKey { line: 1 },
            )
        }),
{
    let text = indent + seq!['='] + behind_equals;
    let line = text + comment;
    assert(line =~= indent + seq!['='] + behind_equals + comment);
    let none = Seq::<char>::empty();
    assert(text =~= indent + (none + none) + seq!['='] + (none + behind_equals + none));
    lemma_no_marks(indent, none, none, none, behind_equals, none, '#');
    lemma_no_marks(indent, none, none, none, behind_equals, none, '\n');
    lemma_in_neither(text, comment, '\n');
    lemma_file_of_one_line(line);
    lemma_content(text, comment);
    let rest = seq!['='] + behind_equals;
    assert(text.skip(indent.len() as int) =~= rest);
    lemma_skip_blank(text, indent.len() as int);
    let said = trimmed(text);
    assert(said == trimmed(rest));
    assert(rest[0] == '=');
    assert(crate::text::trimmed_start(rest) == rest);
    lemma_end_stays(rest);
    lemma_end_keeps_first(rest);
    assert(said[0] == '=');
    lemma_first_index_unique(said, '=', 0);
    assert(said.take(0) =~= none);
    lemma_trimmed_already(none);
    lemma_one(line);
}

/// White space at the start does not change what is left after trimming.
proof fn lemma_skip_blank(text: Seq<char>, n: int)
    requires
        0 <= n <= text.len(),
        forall|j: int| 0 <= j < n ==> white_space(#[trigger] text[j]),
    ensures
        trimmed(text) == trimmed(text.skip(n)),
    decreases n,
{
    if n == 0 {
        assert(text.skip(0) =~= text);
    } else {
        let rest = text.drop_first();
        assert forall|j: int| 0 <= j < n - 1 implies white_space(#[trigger] rest[j]) by {
            assert(rest[j] == text[j + 1]);
        }
        lemma_skip_blank(rest, n - 1);
        assert(rest.skip(n - 1) =~= text.skip(n));
        assert(white_space(text[0]));
        assert(trimmed(text) == trimmed(rest));
    }
}

/// Trimming the end of a text keeps its first character, if that is not white space.
proof fn lemma_end_keeps_first(text: Seq<char>)
    requires
        text.len() > 0,
        !white_space(text[0]),
    ensures
        crate::text::trimmed_end(text).len() > 0,
        crate::text::trimmed_end(text)[0] == text[0],
    decreases text.len(),
{
    if white_space(text.last()) {
        assert(text.drop_last()[0] == text[0]);
        lemma_end_keeps_first(text.drop_last());
    }
}

/// Bytes that are no UTF-8 are refused for that, and no others are.
pub proof fn law_only_utf8_is_read(bytes: Seq<u8>)
    ensures
        !valid_utf8(bytes) <==> parsed(bytes) == Err::<Seq<Pair>, CfgError>(CfgError::InvalidUtf8),
{
    if valid_utf8(bytes) {
        lemma_lines_have_line_errors(split_lines(decode_utf8(bytes)));
    }
}

/// Lines are never refused for their encoding.
proof fn lemma_lines_have_line_errors(lines: Seq<Seq<char>>)
    ensures
        entries_of(lines) != Err::<Seq<Pair>, CfgError>(CfgError::InvalidUtf8),
    decreases lines.len(),
{
    if lines.len() > 0 {
        lemma_lines_have_line_errors(lines.drop_last());
    }
}

/// How many line feeds there are in a text.
pub open spec fn line_feeds(text: Seq<char>) -> int
    decreases text.len(),
{
    if text.len() == 0 {
        0
    } else {
        line_feeds(text.drop_last()) + if text.last() == '\n' {
            1int
        } else {
            0int
        }
    }
}

/// An error behind another file is counted from the start of both: its line is later by the line
/// feeds of the first file.
pub proof fn law_errors_count_the_lines_before_them(a: Seq<u8>, b: Seq<u8>, line: usize)
    requires
        valid_utf8(a),
        valid_utf8(b),
        ends_its_line(decode_utf8(a)),
        parsed(a) is Ok,
        line + line_feeds(decode_utf8(a)) <= usize::MAX,
        split_lines(decode_utf8(a)).len() + split_lines(decode_utf8(b)).len() <= usize::MAX,
    ensures
        parsed(b) == Err::<Seq<Pair>, CfgError>(CfgError::MissingEquals { line }) ==> parsed(a + b)
            == Err::<Seq<Pair>, CfgError>(
            CfgError::MissingEquals { line: (line + line_feeds(decode_utf8(a))) as usize },
        ),
        parsed(b) == Err::<Seq<Pair>, CfgError>(CfgError::EmptyKey { line }) ==> parsed(a + b)
            == Err::<Seq<Pair>, CfgError>(
            CfgError::EmptyKey { line: (line + line_feeds(decode_utf8(a))) as usize },
        ),
{
    let x = decode_utf8(a);
    let y = decode_utf8(b);
    decode_utf8_encode_utf8(a);
    decode_utf8_encode_utf8(b);
    lemma_encoding_of_both(x, y);
    lemma_parsed_text(x);
    lemma_parsed_text(y);
    lemma_parsed_text(x + y);
    lemma_lines_of_both(x, y);
    lemma_line_feeds(x);
    lemma_shifted_error(split_lines(x), split_lines(y));
}

/// A text that ends its last line has as many lines as line feeds.
proof fn lemma_line_feeds(text: Seq<char>)
    requires
        ends_its_line(text),
    ensures
        split_lines(text).len() == line_feeds(text),
    decreases text.len(),
{
    if text.len() > 0 {
        let end = first_index(text, '\n');
        lemma_first_index(text, '\n');
        assert(text[text.len() - 1] == '\n');
        let rest = text.skip(end + 1);
        if rest.len() > 0 {
            assert(rest.last() == text.last());
        }
        lemma_line_feeds(rest);
        let head = text.take(end + 1);
        lemma_line_feeds_of_both(head, rest);
        assert(head + rest =~= text);
        lemma_no_line_feeds(text.take(end));
        assert(head.drop_last() =~= text.take(end));
    }
}

/// Line feeds add up.
proof fn lemma_line_feeds_of_both(a: Seq<char>, b: Seq<char>)
    ensures
        line_feeds(a + b) == line_feeds(a) + line_feeds(b),
    decreases b.len(),
{
    if b.len() == 0 {
        assert(a + b =~= a);
    } else {
        assert((a + b).drop_last() =~= a + b.drop_last());
        lemma_line_feeds_of_both(a, b.drop_last());
    }
}

/// A text without line feeds has none.
proof fn lemma_no_line_feeds(text: Seq<char>)
    requires
        forall|i: int| 0 <= i < text.len() ==> #[trigger] text[i] != '\n',
    ensures
        line_feeds(text) == 0,
    decreases text.len(),
{
    if text.len() > 0 {
        let fewer = text.drop_last();
        assert forall|i: int| 0 <= i < fewer.len() implies #[trigger] fewer[i] != '\n' by {
            assert(fewer[i] == text[i]);
        }
        assert(text[text.len() - 1] != '\n');
        lemma_no_line_feeds(fewer);
    }
}

/// The error of lines behind others is the same, with a later line.
proof fn lemma_shifted_error(a: Seq<Seq<char>>, b: Seq<Seq<char>>)
    requires
        entries_of(a) is Ok,
        a.len() + b.len() <= usize::MAX,
    ensures
        match entries_of(b) {
            Err(CfgError::MissingEquals { line }) => line <= b.len() && entries_of(a + b) == Err::<
                Seq<Pair>,
                CfgError,
            >(CfgError::MissingEquals { line: (line + a.len()) as usize }),
            Err(CfgError::EmptyKey { line }) => line <= b.len() && entries_of(a + b) == Err::<
                Seq<Pair>,
                CfgError,
            >(CfgError::EmptyKey { line: (line + a.len()) as usize }),
            _ => true,
        },
    decreases b.len(),
{
    lemma_entries_of_both(a, b);
    if b.len() > 0 {
        assert((a + b).drop_last() =~= a + b.drop_last());
        assert((a + b).last() == b.last());
        lemma_shifted_error(a, b.drop_last());
        lemma_entries_of_both(a, b.drop_last());
    }
}

/// Looking a key up, entry by entry: there is nothing in an empty file, and a further entry with the
/// key is the one that counts and the last of all; one with another key changes nothing.
pub proof fn law_entries_are_looked_up_by_key(entries: Seq<Pair>, entry: Pair, key: Seq<char>)
    ensures
        last_value(Seq::empty(), key) is None,
        all_values(Seq::empty(), key).len() == 0,
        entry.0 == key ==> last_value(entries.push(entry), key) == Some(entry.1) && all_values(
            entries.push(entry),
            key,
        ) == all_values(entries, key).push(entry.1),
        entry.0 != key ==> last_value(entries.push(entry), key) == last_value(entries, key)
            && all_values(entries.push(entry), key) == all_values(entries, key),
{
    assert(entries.push(entry).drop_last() =~= entries);
}

/// A file has the keys and values of its entries, in order.
pub proof fn law_pairs_are_the_entries(entries: Seq<CfgEntry>, i: int)
    requires
        0 <= i < entries.len(),
    ensures
        pairs(entries).len() == entries.len(),
        pairs(entries)[i].0 == entries[i].key@,
        pairs(entries)[i].1 == entries[i].value@,
{
}

/// A comment starts at the first `#`, and nothing before it is cut off.
pub proof fn law_comments_start_at_the_first_mark(text: Seq<char>, comment: Seq<char>)
    requires
        !text.contains('#'),
        comment.len() > 0 ==> comment[0] == '#',
    ensures
        without_comment(text + comment) == text,
{
    let line = text + comment;
    assert forall|j: int| 0 <= j < text.len() implies line[j] != '#' by {
        assert(line[j] == text[j]);
        assert(text.contains(text[j]));
    }
    if comment.len() > 0 {
        assert(line[text.len() as int] == comment[0]);
    }
    lemma_first_index_unique(line, '#', text.len() as int);
    assert(line.take(text.len() as int) =~= text);
}

/// The first equals sign of a line parts the key from the value, each of which is trimmed. Without
/// one, or without a key, the line is refused under its number.
pub proof fn law_the_first_equals_sign_parts_the_line(
    left: Seq<char>,
    right: Seq<char>,
    line: usize,
)
    requires
        !left.contains('='),
    ensures
        entry_of(left, line) == Err::<Pair, CfgError>(CfgError::MissingEquals { line }),
        trimmed(left).len() == 0 ==> entry_of(left + seq!['='] + right, line) == Err::<
            Pair,
            CfgError,
        >(CfgError::EmptyKey { line }),
        trimmed(left).len() > 0 ==> entry_of(left + seq!['='] + right, line) == Ok::<
            Pair,
            CfgError,
        >((trimmed(left), trimmed(right))),
{
    let whole = left + seq!['='] + right;
    let n = left.len() as int;
    assert forall|j: int| 0 <= j < n implies left[j] != '=' && whole[j] != '=' by {
        assert(whole[j] == left[j]);
        assert(left.contains(left[j]));
    }
    lemma_first_index_unique(left, '=', n);
    assert(whole[n] == '=');
    lemma_first_index_unique(whole, '=', n);
    assert(whole.take(n) =~= left);
    assert(whole.skip(n + 1) =~= right);
}

} // verus!
