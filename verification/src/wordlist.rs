//! Word lists: how they are read, written and identified, and where to get some.
use vstd::prelude::*;
use vstd::utf8::{encode_utf8, is_ascii_chars};
use sha2::{Digest, Sha256};
use crate::text::{
    chars_of, is_ascii_letter, join, same_text, string_of, to_lowercase,
    trim_bounds,
};
use crate::text::{
    ascii_letter, ascii_lowercase, joined, lowercase, texts, trim, white_space,
};

verus! {

/// The shortest word that is looked up.
pub const MIN_NAME_LENGTH: usize = 1;

/// The longest word that is looked up.
pub const MAX_NAME_LENGTH: usize = 30;

/// After how many recorded results the checkpoint is written.
pub const CHECKPOINT_SAVE_INTERVAL: usize = 10;

/// Name, description and address of each word list that can be fetched by name.
pub const WORDLIST_PRESETS: [(&'static str, &'static str, &'static str); 4] = [
    (
        "eff",
        "EFF Large Wordlist (7,776 words)",
        "https://www.eff.org/files/2016/07/18/eff_large_wordlist.txt",
    ),
    (
        "common-10k",
        "Google 10000 English (no swears)",
        "https://raw.githubusercontent.com/first20hours/google-10000-english/master/google-10000-english-no-swears.txt",
    ),
    (
        "common-3k",
        "Most common 3000 English words",
        "https://raw.githubusercontent.com/first20hours/google-10000-english/master/google-10000-english-usa-no-swears-medium.txt",
    ),
    (
        "bip39",
        "BIP39 English wordlist (2048 words)",
        "https://raw.githubusercontent.com/bitcoin/bips/master/bip-0039/english.txt",
    ),
];

/// The first place of `c` in `s`, or the length of `s`.
pub open spec fn first_of(s: Seq<char>, c: char) -> int
    decreases s.len(),
{
    if s.len() == 0 || s[0] == c {
        0
    } else {
        1 + first_of(s.drop_first(), c)
    }
}

/// The lines of a text: what stands before, between and behind its line feeds.
pub open spec fn lines(s: Seq<char>) -> Seq<Seq<char>>
    decreases s.len(),
    via lines_end
{
    let n = first_of(s, '\n');
    if n < s.len() {
        seq![s.take(n)] + lines(s.skip(n + 1))
    } else {
        seq![s]
    }
}

#[via_fn]
proof fn lines_end(s: Seq<char>) {
    first_of_finds(s, '\n');
}

proof fn first_of_finds(s: Seq<char>, c: char)
    ensures
        0 <= first_of(s, c) <= s.len(),
        first_of(s, c) < s.len() ==> s[first_of(s, c)] == c,
        forall|i: int| 0 <= i < first_of(s, c) ==> s[i] != c,
    decreases s.len(),
{
    if s.len() > 0 && s[0] != c {
        let t = s.drop_first();
        first_of_finds(t, c);
        assert forall|i: int| 0 <= i < first_of(s, c) implies s[i] != c by {
            if i > 0 {
                assert(s[i] == t[i - 1]);
            }
        }
    }
}

proof fn first_of_is(s: Seq<char>, c: char, n: int)
    requires
        0 <= n <= s.len(),
        n < s.len() ==> s[n] == c,
        forall|i: int| 0 <= i < n ==> s[i] != c,
    ensures
        first_of(s, c) == n,
{
    first_of_finds(s, c);
}

/// What stands behind the last `c` in `s`: all of `s` if there is none.
pub open spec fn after_last(s: Seq<char>, c: char) -> Seq<char>
    decreases s.len(),
{
    if s.len() == 0 || s.last() == c {
        Seq::empty()
    } else {
        after_last(s.drop_last(), c).push(s.last())
    }
}

/// A word that can be looked up: letters only, neither too short nor too long.
pub open spec fn acceptable(w: Seq<char>) -> bool {
    &&& forall|i: int| 0 <= i < w.len() ==> ascii_letter(#[trigger] w[i])
    &&& MIN_NAME_LENGTH <= w.len() <= MAX_NAME_LENGTH
}

/// A word as word lists hold it once they are read: an acceptable word in lower case.
pub open spec fn is_name(w: Seq<char>) -> bool {
    &&& forall|i: int| 0 <= i < w.len() ==> 'a' <= #[trigger] w[i] <= 'z'
    &&& MIN_NAME_LENGTH <= w.len() <= MAX_NAME_LENGTH
}

/// The word that a line of a word list holds. Blank lines and comments hold
/// none. Of a line with tabs only what stands behind the last one counts. The
/// word is taken in lower case, and only if it is acceptable.
pub open spec fn word_of_line(line: Seq<char>) -> Option<Seq<char>> {
    let t = trim(line);
    if t.len() == 0 || t[0] == '#' {
        None
    } else {
        let w = lowercase(trim(after_last(t, '\t')));
        if acceptable(w) {
            Some(w)
        } else {
            None
        }
    }
}

/// The words that the lines hold, in order.
pub open spec fn words_of_lines(ls: Seq<Seq<char>>) -> Seq<Seq<char>>
    decreases ls.len(),
{
    if ls.len() == 0 {
        Seq::empty()
    } else {
        let before = words_of_lines(ls.drop_last());
        match word_of_line(ls.last()) {
            Some(w) => before.push(w),
            None => before,
        }
    }
}

/// The words of a word list.
pub open spec fn parsed_words(content: Seq<char>) -> Seq<Seq<char>> {
    words_of_lines(lines(content))
}

/// Where the last tab of `text[start..end]` ends, or `start` if there is none.
fn last_field_start(text: &Vec<char>, start: usize, end: usize) -> (r: usize)
    requires
        start <= end <= text.len(),
    ensures
        start <= r <= end,
        text@.subrange(r as int, end as int) == after_last(
            text@.subrange(start as int, end as int),
            '\t',
        ),
{
    let mut i: usize = start;
    let mut r: usize = start;
    while i < end
        invariant
            start <= r <= i <= end <= text.len(),
            text@.subrange(r as int, i as int) == after_last(
                text@.subrange(start as int, i as int),
                '\t',
            ),
        decreases end - i,
    {
        assert(text@.subrange(start as int, i + 1).drop_last() =~= text@.subrange(
            start as int,
            i as int,
        ));
        assert(text@.subrange(start as int, i + 1).last() == text@[i as int]);
        if text[i] == '\t' {
            r = i + 1;
            assert(text@.subrange(r as int, i + 1) =~= Seq::<char>::empty());
        } else {
            assert(text@.subrange(r as int, i + 1) =~= text@.subrange(r as int, i as int).push(
                text@[i as int],
            ));
        }
        i = i + 1;
    }
    r
}

/// Whether `word` is acceptable.
fn is_acceptable(word: &String) -> (r: bool)
    ensures
        r == acceptable(word@),
{
    let letters = chars_of(word.as_str());
    let mut i: usize = 0;
    while i < letters.len()
        invariant
            i <= letters.len(),
            letters@ == word@,
            forall|k: int| 0 <= k < i ==> ascii_letter(#[trigger] word@[k]),
        decreases letters.len() - i,
    {
        if !is_ascii_letter(letters[i]) {
            assert(!ascii_letter(word@[i as int]));
            return false;
        }
        i = i + 1;
    }
    letters.len() >= MIN_NAME_LENGTH && letters.len() <= MAX_NAME_LENGTH
}

/// The word that the line `text[start..end]` holds.
fn parse_line(text: &Vec<char>, start: usize, end: usize) -> (r: Option<String>)
    requires
        start <= end <= text.len(),
    ensures
        r is Some <==> word_of_line(text@.subrange(start as int, end as int)) is Some,
        r matches Some(w) ==> word_of_line(text@.subrange(start as int, end as int)) == Some(w@)
            && is_name(w@),
{
    let (a, b): (usize, usize) = trim_bounds(text, start, end);
    if a == b || text[a] == '#' {
        return None;
    }
    let field: usize = last_field_start(text, a, b);
    let (c, d): (usize, usize) = trim_bounds(text, field, b);
    let raw = string_of(text, c, d);
    let word = to_lowercase(raw.as_str());
    if is_acceptable(&word) {
        assert forall|i: int| 0 <= i < word@.len() implies 'a' <= #[trigger] word@[i] <= 'z' by {
            assert(ascii_letter(word@[i]));
        }
        Some(word)
    } else {
        None
    }
}

/// The words of a word list, in order.
pub fn parse_wordlist_content(content: &str) -> (r: Vec<String>)
    ensures
        texts(r@) == parsed_words(content@),
        forall|i: int| 0 <= i < r.len() ==> is_name(#[trigger] r[i]@),
{
    let text = chars_of(content);
    let mut words: Vec<String> = Vec::new();
    let mut start: usize = 0;
    let ghost mut done: Seq<Seq<char>> = Seq::empty();
    assert(text@.skip(0) =~= text@);
    assert(done + lines(text@) =~= lines(text@));
    assert(texts(words@) =~= words_of_lines(done));
    loop
        invariant_except_break
            text@ == content@,
            start <= text.len(),
            lines(content@) == done + lines(text@.skip(start as int)),
            texts(words@) == words_of_lines(done),
            forall|i: int| 0 <= i < words.len() ==> is_name(#[trigger] words[i]@),
        ensures
            texts(words@) == parsed_words(content@),
            forall|i: int| 0 <= i < words.len() ==> is_name(#[trigger] words[i]@),
        decreases text.len() - start,
    {
        let ghost rest = text@.skip(start as int);
        let mut end: usize = start;
        while end < text.len() && text[end] != '\n'
            invariant
                start <= end <= text.len(),
                forall|k: int| start <= k < end ==> text@[k] != '\n',
            decreases text.len() - end,
        {
            end = end + 1;
        }
        let ghost line = text@.subrange(start as int, end as int);
        proof {
            first_of_is(rest, '\n', end - start);
            assert(rest.take(end - start) =~= line);
            assert(done.push(line).drop_last() =~= done);
        }
        let ghost before = words@;
        match parse_line(&text, start, end) {
            Some(word) => {
                words.push(word);
                assert(texts(words@) =~= texts(before).push(word@));
            },
            None => {},
        }
        assert(texts(words@) == words_of_lines(done.push(line)));
        if end == text.len() {
            assert(rest =~= line);
            assert(lines(content@) =~= done.push(line));
            break;
        }
        proof {
            assert(rest.skip(end - start + 1) =~= text@.skip(end + 1));
            assert(lines(content@) =~= done.push(line) + lines(text@.skip(end + 1)));
            done = done.push(line);
        }
        start = end + 1;
    }
    words
}

proof fn lines_of_two(a: Seq<char>, b: Seq<char>)
    ensures
        lines(a + seq!['\n'] + b) == lines(a) + lines(b),
    decreases a.len(),
{
    let s = a + seq!['\n'] + b;
    let n = first_of(a, '\n');
    first_of_finds(a, '\n');
    first_of_is(s, '\n', n);
    if n < a.len() {
        lines_of_two(a.skip(n + 1), b);
        assert(s.take(n) =~= a.take(n));
        assert(s.skip(n + 1) =~= a.skip(n + 1) + seq!['\n'] + b);
        assert(lines(s) =~= lines(a) + lines(b));
    } else {
        assert(s.take(n) =~= a);
        assert(s.skip(n + 1) =~= b);
        assert(lines(s) =~= lines(a) + lines(b));
    }
}

proof fn words_of_two(x: Seq<Seq<char>>, y: Seq<Seq<char>>)
    ensures
        words_of_lines(x + y) == words_of_lines(x) + words_of_lines(y),
    decreases y.len(),
{
    if y.len() == 0 {
        assert(x + y =~= x);
        assert(words_of_lines(x) + words_of_lines(y) =~= words_of_lines(x));
    } else {
        words_of_two(x, y.drop_last());
        assert((x + y).drop_last() =~= x + y.drop_last());
        assert((x + y).last() == y.last());
        assert(words_of_lines(x + y) =~= words_of_lines(x) + words_of_lines(y));
    }
}

/// Two word lists put one below the other hold the words of the first and then
/// those of the second.
pub proof fn lists_one_below_the_other(a: Seq<char>, b: Seq<char>)
    ensures
        parsed_words(a + seq!['\n'] + b) == parsed_words(a) + parsed_words(b),
{
    lines_of_two(a, b);
    words_of_two(lines(a), lines(b));
}

proof fn line_without_feed(w: Seq<char>)
    requires
        !w.contains('\n'),
    ensures
        lines(w) == seq![w],
{
    assert forall|i: int| 0 <= i < w.len() implies w[i] != '\n' by {
        assert(w.contains(w[i]));
    }
    first_of_is(w, '\n', w.len() as int);
}

proof fn no_tab(w: Seq<char>)
    requires
        forall|i: int| 0 <= i < w.len() ==> w[i] != '\t',
    ensures
        after_last(w, '\t') == w,
    decreases w.len(),
{
    if w.len() > 0 {
        no_tab(w.drop_last());
        assert(w.drop_last().push(w.last()) =~= w);
    } else {
        assert(w =~= Seq::<char>::empty());
    }
}

/// A name on a line of its own is the word of that line.
pub proof fn name_on_a_line(w: Seq<char>)
    requires
        is_name(w),
    ensures
        word_of_line(w) == Some(w),
{
    assert('a' <= w[0] <= 'z' && 'a' <= w.last() <= 'z');
    assert(!white_space(w[0]) && !white_space(w.last()));
    assert(trim(w) == w);
    assert forall|i: int| 0 <= i < w.len() implies w[i] != '\t' by {
        assert('a' <= w[i] <= 'z');
    }
    no_tab(w);
    assert(is_ascii_chars(w)) by {
        assert forall|i: int| 0 <= i < w.len() implies '\0' <= #[trigger] w[i] <= '\u{7f}' by {
            assert('a' <= w[i] <= 'z');
        }
    }
    assert(ascii_lowercase(w) =~= w) by {
        assert forall|i: int| 0 <= i < w.len() implies ascii_lowercase(w)[i] == w[i] by {
            assert('a' <= w[i] <= 'z');
        }
    }
    assert(acceptable(w)) by {
        assert forall|i: int| 0 <= i < w.len() implies ascii_letter(#[trigger] w[i]) by {
            assert('a' <= w[i] <= 'z');
        }
    }
}

/// A word is acceptable exactly if it has one to thirty letters of the English
/// alphabet and nothing else, and a name exactly if they are small ones.
pub proof fn what_is_acceptable(w: Seq<char>)
    ensures
        acceptable(w) <==> 1 <= w.len() <= 30 && forall|i: int|
            0 <= i < w.len() ==> 'a' <= #[trigger] w[i] <= 'z' || 'A' <= w[i] <= 'Z',
        is_name(w) <==> 1 <= w.len() <= 30 && forall|i: int|
            0 <= i < w.len() ==> 'a' <= #[trigger] w[i] <= 'z',
{
}

/// Behind the last of a character stands what follows it, and all of a text that
/// does not hold it.
pub proof fn what_stands_behind_the_last(a: Seq<char>, b: Seq<char>, c: char)
    requires
        forall|i: int| 0 <= i < b.len() ==> b[i] != c,
    ensures
        after_last(a + seq![c] + b, c) == b,
        after_last(b, c) == b,
    decreases b.len(),
{
    let s = a + seq![c] + b;
    if b.len() == 0 {
        assert(s.last() == c);
        assert(b =~= Seq::<char>::empty());
    } else {
        what_stands_behind_the_last(a, b.drop_last(), c);
        assert(s.drop_last() =~= a + seq![c] + b.drop_last());
        assert(s.last() == b.last());
        assert(b.drop_last().push(b.last()) =~= b);
    }
}

/// A line holds no word if it is blank or a comment. Otherwise it holds the lower-case
/// form of what stands behind its last tab, without the white space around it, if
/// that is one to thirty letters, and else none.
pub proof fn what_a_line_holds(line: Seq<char>)
    ensures
        trim(line).len() == 0 ==> word_of_line(line) is None,
        trim(line).len() > 0 && trim(line)[0] == '#' ==> word_of_line(line) is None,
        trim(line).len() > 0 && trim(line)[0] != '#' ==> {
            let w = lowercase(trim(after_last(trim(line), '\t')));
            let letters = forall|i: int|
                0 <= i < w.len() ==> 'a' <= #[trigger] w[i] <= 'z' || 'A' <= w[i] <= 'Z';
            &&& word_of_line(line) is Some <==> 1 <= w.len() <= 30 && letters
            &&& word_of_line(line) is Some ==> word_of_line(line) == Some(w)
        },
{
}

proof fn nothing_to_trim(w: Seq<char>)
    requires
        w.len() > 0,
        !white_space(w[0]),
        !white_space(w.last()),
    ensures
        trim(w) == w,
{
}

/// Letters on a line of their own are a word, in lower case, if there are no more
/// than thirty of them, and else none. Any other character that is not white space
/// makes a line of ASCII characters without white space hold no word. A comment holds
/// none, whatever follows.
pub proof fn letters_on_a_line(w: Seq<char>, k: int)
    requires
        w.len() > 0,
        is_ascii_chars(w),
        forall|i: int| 0 <= i < w.len() ==> !white_space(#[trigger] w[i]),
    ensures
        (forall|i: int| 0 <= i < w.len() ==> ascii_letter(#[trigger] w[i])) && w.len() <= 30
            ==> word_of_line(w) == Some(lowercase(w)),
        w.len() > 30 ==> word_of_line(w) is None,
        0 <= k < w.len() && !ascii_letter(w[k]) ==> word_of_line(w) is None,
        w[0] == '#' ==> word_of_line(w) is None,
{
    nothing_to_trim(w);
    assert forall|i: int| 0 <= i < w.len() implies w[i] != '\t' by {
        assert(!white_space(w[i]));
    }
    no_tab(w);
    let low = lowercase(w);
    assert(low.len() == w.len());
    assert forall|i: int| 0 <= i < w.len() implies (ascii_letter(#[trigger] low[i])
        <==> ascii_letter(w[i])) by {}
    if 0 <= k < w.len() && !ascii_letter(w[k]) {
        assert(!ascii_letter(low[k]));
    }
    if forall|i: int| 0 <= i < w.len() ==> ascii_letter(#[trigger] w[i]) {
        assert(ascii_letter(w[0]));
        assert forall|i: int| 0 <= i < low.len() implies ascii_letter(#[trigger] low[i]) by {
            assert(ascii_letter(w[i]));
        }
    }
}

/// A name behind a tab is the word of its line, whatever stands before the tab, as
/// long as that is neither white space nor a comment at its beginning.
pub proof fn name_behind_a_tab(before: Seq<char>, w: Seq<char>)
    requires
        before.len() > 0,
        !white_space(before[0]),
        before[0] != '#',
        is_name(w),
    ensures
        word_of_line(before + seq!['\t'] + w) == Some(w),
{
    let line = before + seq!['\t'] + w;
    assert('a' <= w[0] <= 'z' && 'a' <= w.last() <= 'z');
    assert(line[0] == before[0]);
    assert(line.last() == w.last());
    nothing_to_trim(line);
    nothing_to_trim(w);
    assert forall|i: int| 0 <= i < w.len() implies w[i] != '\t' by {
        assert('a' <= w[i] <= 'z');
    }
    what_stands_behind_the_last(before, w, '\t');
    name_on_a_line(w);
    no_tab(w);
}

/// A word list is read line by line: what stands before a line feed and what stands
/// behind it are read on their own, and a text without line feeds is one line, with
/// its word or without one.
pub proof fn lists_are_read_line_by_line(a: Seq<char>, b: Seq<char>, line: Seq<char>)
    requires
        !line.contains('\n'),
    ensures
        lines(a + seq!['\n'] + b) == lines(a) + lines(b),
        lines(line) == seq![line],
        parsed_words(a + seq!['\n'] + b) == parsed_words(a) + parsed_words(b),
        parsed_words(line) == match word_of_line(line) {
            Some(w) => seq![w],
            None => Seq::<Seq<char>>::empty(),
        },
{
    lines_of_two(a, b);
    lists_one_below_the_other(a, b);
    line_without_feed(line);
    assert(seq![line].drop_last() =~= Seq::<Seq<char>>::empty());
    assert(words_of_lines(seq![line].drop_last()) =~= Seq::<Seq<char>>::empty());
    assert(parsed_words(line) =~= match word_of_line(line) {
        Some(w) => seq![w],
        None => Seq::<Seq<char>>::empty(),
    });
}

/// Names written one to a line are read back as they were written.
pub proof fn written_names_read_back(words: Seq<Seq<char>>)
    requires
        forall|i: int| 0 <= i < words.len() ==> is_name(#[trigger] words[i]),
    ensures
        parsed_words(joined(words, seq!['\n'])) == words,
    decreases words.len(),
{
    let text = joined(words, seq!['\n']);
    if words.len() == 0 {
        line_without_feed(text);
        assert(words_of_lines(lines(text).drop_last()) =~= Seq::<Seq<char>>::empty()) by {
            assert(lines(text).drop_last() =~= Seq::<Seq<char>>::empty());
        }
        assert(trim(text) == text);
        assert(parsed_words(text) =~= words);
    } else {
        let last = words.last();
        assert(is_name(last));
        assert(!last.contains('\n')) by {
            assert forall|i: int| 0 <= i < last.len() implies last[i] != '\n' by {
                assert('a' <= last[i] <= 'z');
            }
        }
        line_without_feed(last);
        name_on_a_line(last);
        assert(seq![last].drop_last() =~= Seq::<Seq<char>>::empty());
        assert(words_of_lines(seq![last].drop_last()) =~= Seq::<Seq<char>>::empty());
        assert(words_of_lines(seq![last]) =~= seq![last]);
        if words.len() == 1 {
            assert(words =~= seq![last]);
        } else {
            written_names_read_back(words.drop_last());
            lists_one_below_the_other(joined(words.drop_last(), seq!['\n']), last);
            assert(words.drop_last() + seq![last] =~= words);
        }
    }
}

/// Why there is no word list.
#[derive(Debug)]
pub enum WordlistError {
    /// The server answered with a status, given as text, that is not a success.
    HttpStatus(String),
    /// What was fetched holds no word.
    NoWords,
    /// What was read from a file, given by its path, holds no word.
    NoWordsIn(String),
}

impl WordlistError {
    /// The message for the user.
    pub open spec fn text(self) -> Seq<char> {
        match self {
            WordlistError::HttpStatus(status) => "Failed to fetch wordlist: HTTP "@ + status@,
            WordlistError::NoWords => "No valid words found in the wordlist"@,
            WordlistError::NoWordsIn(path) => "No valid words found in "@ + path@,
        }
    }

    /// The message for the user.
    pub fn message(&self) -> (r: String)
        ensures
            r@ == self.text(),
    {
        match self {
            WordlistError::HttpStatus(status) => {
                "Failed to fetch wordlist: HTTP ".to_owned().concat(status.as_str())
            },
            WordlistError::NoWords => "No valid words found in the wordlist".to_owned(),
            WordlistError::NoWordsIn(path) => {
                "No valid words found in ".to_owned().concat(path.as_str())
            },
        }
    }
}

/// The messages say what is wrong, with the status or the path that was given.
pub proof fn messages_about_lists(e: WordlistError)
    ensures
        e matches WordlistError::HttpStatus(status) ==> e.text()
            == "Failed to fetch wordlist: HTTP "@ + status@,
        e is NoWords ==> e.text() == "No valid words found in the wordlist"@,
        e matches WordlistError::NoWordsIn(path) ==> e.text() == "No valid words found in "@
            + path@,
{
}

/// The words of the word list that was read from the file at `path`.
pub fn load_wordlist(content: &str, path: &str) -> (r: Result<Vec<String>, WordlistError>)
    ensures
        r is Ok <==> parsed_words(content@).len() > 0,
        r matches Ok(words) ==> texts(words@) == parsed_words(content@) && forall|i: int|
            0 <= i < words.len() ==> is_name(#[trigger] words[i]@),
        r matches Err(e) ==> e matches WordlistError::NoWordsIn(p) && p@ == path@,
{
    let words = parse_wordlist_content(content);
    assert(texts(words@).len() == words.len());
    if words.len() == 0 {
        return Err(WordlistError::NoWordsIn(path.to_owned()));
    }
    Ok(words)
}

/// Whether the body that came with this HTTP status is a word list. The status
/// is also given as text, for the message.
pub fn check_fetch_status(status: u16, status_text: &str) -> (r: Result<(), WordlistError>)
    ensures
        r is Ok <==> 200 <= status <= 299,
        r matches Err(e) ==> e matches WordlistError::HttpStatus(s) && s@ == status_text@,
{
    if status < 200 || status > 299 {
        return Err(WordlistError::HttpStatus(status_text.to_owned()));
    }
    Ok(())
}

/// A fetched word list as it is stored.
#[derive(Debug)]
pub struct FetchedWordlist {
    /// The words, one to a line.
    pub content: String,
    /// How many there are.
    pub count: usize,
}

/// What is stored of a word list that was fetched: its words, one to a line.
/// They are the words that are read back from there.
pub fn fetch_wordlist(body: &str) -> (r: Result<FetchedWordlist, WordlistError>)
    ensures
        r is Ok <==> parsed_words(body@).len() > 0,
        r matches Ok(f) ==> {
            &&& f.content@ == joined(parsed_words(body@), "\n"@)
            &&& f.count == parsed_words(body@).len()
            &&& parsed_words(f.content@) == parsed_words(body@)
        },
        r matches Err(e) ==> e == WordlistError::NoWords,
{
    let words = parse_wordlist_content(body);
    assert(texts(words@).len() == words.len());
    if words.len() == 0 {
        return Err(WordlistError::NoWords);
    }
    let content = join(&words, "\n");
    proof {
        reveal_strlit("\n");
        assert("\n"@ =~= seq!['\n']);
        assert forall|i: int| 0 <= i < texts(words@).len() implies is_name(
            #[trigger] texts(words@)[i],
        ) by {
            assert(is_name(words[i]@));
        }
        written_names_read_back(texts(words@));
    }
    Ok(FetchedWordlist { content, count: words.len() })
}

/// The words in order, each with a line feed behind it.
pub open spec fn terminated(words: Seq<Seq<char>>) -> Seq<char>
    decreases words.len(),
{
    if words.len() == 0 {
        Seq::empty()
    } else {
        terminated(words.drop_last()) + words.last() + "\n"@
    }
}

/// What SHA-256 makes of a byte string.
pub uninterp spec fn sha256(data: Seq<u8>) -> Seq<u8>;

/// `sha2::Sha256::digest`: 32 bytes, fixed by the data alone.
#[verifier::external_body]
fn sha256_digest(data: &[u8]) -> (r: Vec<u8>)
    ensures
        r@ == sha256(data@),
        r@.len() == 32,
{
    Sha256::digest(data).to_vec()
}

/// The hexadecimal digit of a number below sixteen.
pub open spec fn hex_digit(n: int) -> char {
    if n < 10 {
        ('0' as u32 + n) as char
    } else {
        ('a' as u32 + (n - 10)) as char
    }
}

/// The bytes in hexadecimal, two digits each.
pub open spec fn hex(bytes: Seq<u8>) -> Seq<char> {
    Seq::new(
        2 * bytes.len(),
        |i: int|
            if i % 2 == 0 {
                hex_digit(bytes[i / 2] as int / 16)
            } else {
                hex_digit(bytes[i / 2] as int % 16)
            },
    )
}

/// Each byte is written as two hexadecimal digits, from `0` to `9` and from `a` to
/// `f`, the one for the sixteens first.
pub proof fn bytes_in_hexadecimal(bytes: Seq<u8>, i: int)
    requires
        0 <= i < bytes.len(),
    ensures
        hex(bytes).len() == 2 * bytes.len(),
        ({
            let (h, l) = (bytes[i] as int / 16, bytes[i] as int % 16);
            &&& hex(bytes)[2 * i] as int == if h < 10 {
                48 + h
            } else {
                87 + h
            }
            &&& hex(bytes)[2 * i + 1] as int == if l < 10 {
                48 + l
            } else {
                87 + l
            }
        }),
{
    assert((2 * i) / 2 == i && (2 * i + 1) / 2 == i);
}

/// The hexadecimal digit of a number below sixteen.
fn hex_digit_char(n: u8) -> (r: char)
    requires
        n < 16,
    ensures
        r == hex_digit(n as int),
{
    if n < 10 {
        (48u8 + n) as char
    } else {
        (97u8 + (n - 10)) as char
    }
}

/// The bytes in hexadecimal, two digits each.
pub fn to_hex(bytes: &Vec<u8>) -> (r: String)
    ensures
        r@ == hex(bytes@),
{
    let mut out = String::new();
    let mut i: usize = 0;
    while i < bytes.len()
        invariant
            i <= bytes.len(),
            out@ == hex(bytes@.take(i as int)),
        decreases bytes.len() - i,
    {
        out.push(hex_digit_char(bytes[i] / 16));
        out.push(hex_digit_char(bytes[i] % 16));
        assert(out@ =~= hex(bytes@.take(i + 1))) by {
            let b = bytes@.take(i + 1);
            assert(forall|k: int| 0 <= k < 2 * i ==> 0 <= #[trigger] (k / 2) < i);
            assert((2 * i) / 2 == i && (2 * i + 1) / 2 == i);
            assert(forall|k: int| 0 <= k < i ==> b[k] == bytes@.take(i as int)[k]);
        }
        i = i + 1;
    }
    assert(bytes@.take(i as int) =~= bytes@);
    out
}

/// The identity of a word list: the SHA-256 of its words, each with a line feed
/// behind it, in hexadecimal.
pub fn calculate_wordlist_hash(words: &[String]) -> (r: String)
    ensures
        r@ == hex(sha256(encode_utf8(terminated(texts(words@))))),
        r@.len() == 64,
{
    let mut data = String::new();
    let mut i: usize = 0;
    while i < words.len()
        invariant
            i <= words.len(),
            data@ == terminated(texts(words@).take(i as int)),
        decreases words.len() - i,
    {
        data.append(words[i].as_str());
        data.append("\n");
        assert(texts(words@).take(i + 1).drop_last() =~= texts(words@).take(i as int));
        i = i + 1;
    }
    assert(texts(words@).take(i as int) =~= texts(words@));
    let digest = sha256_digest(data.as_str().as_bytes());
    to_hex(&digest)
}

proof fn terminated_lines(words: Seq<Seq<char>>)
    requires
        forall|i: int| 0 <= i < words.len() ==> !(#[trigger] words[i]).contains('\n'),
    ensures
        lines(terminated(words)) == words.push(Seq::empty()),
    decreases words.len(),
{
    reveal_strlit("\n");
    assert("\n"@ =~= seq!['\n']);
    let none = Seq::<char>::empty();
    line_without_feed(none);
    if words.len() == 0 {
        assert(words.push(none) =~= seq![none]);
    } else {
        let before = words.drop_last();
        terminated_lines(before);
        let t = terminated(before);
        if before.len() == 0 {
            assert(terminated(words) =~= words.last() + seq!['\n'] + none);
            lines_of_two(words.last(), none);
            line_without_feed(words.last());
            assert(seq![words.last()] + seq![none] =~= words.push(none));
        } else {
            let tb = terminated(before.drop_last()) + before.last();
            assert(t =~= tb + seq!['\n'] + none);
            lines_of_two(tb, none);
            assert(lines(tb) =~= before) by {
                assert((lines(tb) + seq![none]).drop_last() =~= lines(tb));
                assert(before.push(none).drop_last() =~= before);
            }
            let tw = tb + seq!['\n'] + words.last();
            assert(terminated(words) =~= tw + seq!['\n'] + none);
            lines_of_two(tw, none);
            lines_of_two(tb, words.last());
            line_without_feed(words.last());
            assert(before + seq![words.last()] + seq![none] =~= words.push(none));
        }
    }
}

/// The text that is hashed is made word by word, each with one line feed behind it.
pub proof fn hashed_word_by_word(a: Seq<Seq<char>>, b: Seq<Seq<char>>, w: Seq<char>)
    ensures
        terminated(Seq::empty()) == Seq::<char>::empty(),
        terminated(seq![w]) == w + seq!['\n'],
        terminated(a + b) == terminated(a) + terminated(b),
    decreases b.len(),
{
    reveal_strlit("\n");
    assert("\n"@ =~= seq!['\n']);
    assert(seq![w].drop_last() =~= Seq::<Seq<char>>::empty());
    assert(terminated(seq![w].drop_last()) =~= Seq::<char>::empty());
    assert(terminated(seq![w]) =~= w + seq!['\n']);
    if b.len() == 0 {
        assert(a + b =~= a);
        assert(terminated(a) + terminated(b) =~= terminated(a));
    } else {
        hashed_word_by_word(a, b.drop_last(), w);
        assert((a + b).drop_last() =~= a + b.drop_last());
        assert((a + b).last() == b.last());
        assert(terminated(a + b) =~= terminated(a) + terminated(b));
    }
}

/// Word lists whose words hold no line feed are hashed from different byte
/// strings unless they are the same list: only a collision of SHA-256 can give
/// two of them one hash.
pub proof fn hashed_bytes_tell_lists_apart(a: Seq<Seq<char>>, b: Seq<Seq<char>>)
    requires
        forall|i: int| 0 <= i < a.len() ==> !(#[trigger] a[i]).contains('\n'),
        forall|i: int| 0 <= i < b.len() ==> !(#[trigger] b[i]).contains('\n'),
    ensures
        encode_utf8(terminated(a)) == encode_utf8(terminated(b)) <==> a == b,
{
    if encode_utf8(terminated(a)) == encode_utf8(terminated(b)) {
        vstd::utf8::encode_utf8_decode_utf8(terminated(a));
        vstd::utf8::encode_utf8_decode_utf8(terminated(b));
        terminated_lines(a);
        terminated_lines(b);
        assert(a.push(Seq::empty()).drop_last() =~= a);
        assert(b.push(Seq::empty()).drop_last() =~= b);
    }
}

/// `i` is the place of the first preset with that name.
pub open spec fn first_preset(name: Seq<char>, i: int) -> bool {
    &&& 0 <= i < WORDLIST_PRESETS@.len()
    &&& WORDLIST_PRESETS@[i].0@ == name
    &&& forall|k: int| 0 <= k < i ==> (#[trigger] WORDLIST_PRESETS@[k]).0@ != name
}

/// The preset with that name.
pub fn get_preset(name: &str) -> (r: Option<(&'static str, &'static str, &'static str)>)
    ensures
        r is None <==> forall|k: int|
            0 <= k < WORDLIST_PRESETS@.len() ==> (#[trigger] WORDLIST_PRESETS@[k]).0@ != name@,
        r matches Some(p) ==> exists|i: int| #[trigger]
            first_preset(name@, i) && p == WORDLIST_PRESETS@[i],
{
    let all = WORDLIST_PRESETS;
    let mut i: usize = 0;
    while i < all.len()
        invariant
            i <= all.len(),
            all == WORDLIST_PRESETS,
            forall|k: int| 0 <= k < i ==> (#[trigger] WORDLIST_PRESETS@[k]).0@ != name@,
        decreases all.len() - i,
    {
        if same_text(all[i].0, name) {
            assert(first_preset(name@, i as int));
            return Some(all[i]);
        }
        i = i + 1;
    }
    None
}

/// Names and descriptions of the presets.
pub fn list_presets() -> (r: Vec<(&'static str, &'static str)>)
    ensures
        r@.len() == WORDLIST_PRESETS@.len(),
        forall|i: int|
            0 <= i < r@.len() ==> (#[trigger] r@[i]).0 == WORDLIST_PRESETS@[i].0 && r@[i].1
                == WORDLIST_PRESETS@[i].1,
{
    let all = WORDLIST_PRESETS;
    let mut r: Vec<(&'static str, &'static str)> = Vec::new();
    let mut i: usize = 0;
    while i < all.len()
        invariant
            i <= all.len(),
            r.len() == i,
            all == WORDLIST_PRESETS,
            forall|k: int|
                0 <= k < i ==> (#[trigger] r@[k]).0 == WORDLIST_PRESETS@[k].0 && r@[k].1
                    == WORDLIST_PRESETS@[k].1,
        decreases all.len() - i,
    {
        r.push((all[i].0, all[i].1));
        i = i + 1;
    }
    r
}

/// No two presets have one name, so each that is listed is the one that its
/// name gets.
pub proof fn preset_names_differ(i: int)
    requires
        0 <= i < WORDLIST_PRESETS@.len(),
    ensures
        first_preset(WORDLIST_PRESETS@[i].0@, i),
{
    reveal_strlit("eff");
    reveal_strlit("common-10k");
    reveal_strlit("common-3k");
    reveal_strlit("bip39");
    assert("eff"@.len() == 3 && "common-10k"@.len() == 10 && "common-3k"@.len() == 9
        && "bip39"@.len() == 5);
}

} // verus!
