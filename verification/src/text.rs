//! Characters and strings.
//!
//! Strings are modelled by their sequence of characters.
use vstd::prelude::*;
use vstd::utf8::{encode_utf8, is_ascii_chars};

verus! {

/// The characters with Unicode's `White_Space` property.
pub open spec fn white_space(c: char) -> bool {
    ||| '\u{9}' <= c <= '\u{d}'
    ||| c == '\u{20}'
    ||| c == '\u{85}'
    ||| c == '\u{a0}'
    ||| c == '\u{1680}'
    ||| '\u{2000}' <= c <= '\u{200a}'
    ||| c == '\u{2028}'
    ||| c == '\u{2029}'
    ||| c == '\u{202f}'
    ||| c == '\u{205f}'
    ||| c == '\u{3000}'
}

/// Whether `c` has the `White_Space` property.
pub fn is_white_space(c: char) -> (r: bool)
    ensures
        r == white_space(c),
{
    ('\u{9}' <= c && c <= '\u{d}') || c == '\u{20}' || c == '\u{85}' || c == '\u{a0}' || c
        == '\u{1680}' || ('\u{2000}' <= c && c <= '\u{200a}') || c == '\u{2028}' || c == '\u{2029}'
        || c == '\u{202f}' || c == '\u{205f}' || c == '\u{3000}'
}

/// A letter of the English alphabet, in either case.
pub open spec fn ascii_letter(c: char) -> bool {
    'a' <= c <= 'z' || 'A' <= c <= 'Z'
}

/// Whether `c` is a letter of the English alphabet.
pub fn is_ascii_letter(c: char) -> (r: bool)
    ensures
        r == ascii_letter(c),
{
    ('a' <= c && c <= 'z') || ('A' <= c && c <= 'Z')
}

/// `s` without the white space in front of it.
pub open spec fn trim_start(s: Seq<char>) -> Seq<char>
    decreases s.len(),
{
    if s.len() > 0 && white_space(s[0]) {
        trim_start(s.drop_first())
    } else {
        s
    }
}

/// `s` without the white space behind it.
pub open spec fn trim_end(s: Seq<char>) -> Seq<char>
    decreases s.len(),
{
    if s.len() > 0 && white_space(s.last()) {
        trim_end(s.drop_last())
    } else {
        s
    }
}

/// `s` without the white space around it.
pub open spec fn trim(s: Seq<char>) -> Seq<char> {
    trim_end(trim_start(s))
}

proof fn trim_start_cuts(s: Seq<char>) -> (n: int)
    ensures
        0 <= n <= s.len(),
        trim_start(s) == s.skip(n),
        forall|i: int| 0 <= i < n ==> white_space(#[trigger] s[i]),
        n < s.len() ==> !white_space(s[n]),
    decreases s.len(),
{
    if s.len() > 0 && white_space(s[0]) {
        let rest = s.drop_first();
        let n = trim_start_cuts(rest) + 1;
        assert forall|i: int| 0 <= i < n implies white_space(#[trigger] s[i]) by {
            if i > 0 {
                assert(s[i] == rest[i - 1]);
            }
        }
        assert(s.skip(n) =~= rest.skip(n - 1));
        n
    } else {
        assert(s.skip(0) =~= s);
        0
    }
}

proof fn trim_end_cuts(s: Seq<char>) -> (n: int)
    ensures
        0 <= n <= s.len(),
        trim_end(s) == s.take(n),
        forall|i: int| n <= i < s.len() ==> white_space(#[trigger] s[i]),
        n > 0 ==> !white_space(s[n - 1]),
    decreases s.len(),
{
    if s.len() > 0 && white_space(s.last()) {
        let rest = s.drop_last();
        let n = trim_end_cuts(rest);
        assert forall|i: int| n <= i < s.len() implies white_space(#[trigger] s[i]) by {
            if i < rest.len() {
                assert(s[i] == rest[i]);
            }
        }
        assert(s.take(n) =~= rest.take(n));
        if n > 0 {
            assert(s[n - 1] == rest[n - 1]);
        }
        n
    } else {
        assert(s.take(s.len() as int) =~= s);
        s.len() as int
    }
}

/// Trimming takes away white space only, in front and behind, and as much as there
/// is: whatever stands between two runs of white space, and neither begins nor ends
/// with white space itself, is what trimming leaves.
pub proof fn trimming_takes_away_white_space(s: Seq<char>, a: Seq<char>, m: Seq<char>, b: Seq<char>)
    requires
        s == a + m + b,
        forall|i: int| 0 <= i < a.len() ==> white_space(#[trigger] a[i]),
        forall|i: int| 0 <= i < b.len() ==> white_space(#[trigger] b[i]),
        m.len() > 0 ==> !white_space(m[0]) && !white_space(m.last()),
    ensures
        trim(s) == m,
{
    let n = trim_start_cuts(s);
    let t = s.skip(n);
    let k = trim_end_cuts(t);
    assert forall|i: int| 0 <= i < a.len() implies white_space(#[trigger] s[i]) by {
        assert(s[i] == a[i]);
    }
    assert forall|i: int| a.len() + m.len() <= i < s.len() implies white_space(
        #[trigger] s[i],
    ) by {
        assert(s[i] == b[i - a.len() - m.len()]);
    }
    if m.len() > 0 {
        assert(s[a.len() as int] == m[0]);
        assert(s[a.len() + m.len() - 1] == m.last());
        assert(n == a.len());
        assert(t[m.len() - 1] == m.last());
        if k < m.len() {
            assert(white_space(t[m.len() - 1]));
        }
        if k > m.len() {
            assert(t[k - 1] == s[n + k - 1]);
        }
        assert(trim(s) =~= m);
    } else {
        if n < s.len() {
            assert(white_space(s[n]));
        }
        assert(trim(s) =~= m);
    }
}

/// The bounds of `text[start..end]` without the white space around it.
pub fn trim_bounds(text: &Vec<char>, start: usize, end: usize) -> (r: (usize, usize))
    requires
        start <= end <= text.len(),
    ensures
        start <= r.0 <= r.1 <= end,
        text@.subrange(r.0 as int, r.1 as int) == trim(text@.subrange(start as int, end as int)),
{
    let ghost whole = text@.subrange(start as int, end as int);
    let mut a: usize = start;
    while a < end && is_white_space(text[a])
        invariant
            start <= a <= end <= text.len(),
            trim_start(text@.subrange(a as int, end as int)) == trim_start(whole),
        ensures
            start <= a <= end <= text.len(),
            text@.subrange(a as int, end as int) == trim_start(whole),
        decreases end - a,
    {
        assert(text@.subrange(a as int, end as int).drop_first() =~= text@.subrange(
            a + 1,
            end as int,
        ));
        a = a + 1;
    }
    let mut b: usize = end;
    while a < b && is_white_space(text[b - 1])
        invariant
            start <= a <= b <= end <= text.len(),
            trim_end(text@.subrange(a as int, b as int)) == trim(whole),
        ensures
            start <= a <= b <= end,
            text@.subrange(a as int, b as int) == trim(whole),
        decreases b - a,
    {
        assert(text@.subrange(a as int, b as int).drop_last() =~= text@.subrange(
            a as int,
            b - 1,
        ));
        b = b - 1;
    }
    (a, b)
}

/// The characters of `s`.
pub fn chars_of(s: &str) -> (r: Vec<char>)
    ensures
        r@ == s@,
{
    let mut out: Vec<char> = Vec::new();
    for c in it: s.chars()
        invariant
            it.seq() == s@,
            out@ == s@.take(it.index() as int),
    {
        out.push(c);
    }
    out
}

/// `String::push` puts the character behind those that are there.
pub assume_specification[ String::push ](s: &mut String, c: char)
    ensures
        final(s)@ == old(s)@.push(c),
;

/// The string made of `text[start..end]`.
pub fn string_of(text: &Vec<char>, start: usize, end: usize) -> (r: String)
    requires
        start <= end <= text.len(),
    ensures
        r@ == text@.subrange(start as int, end as int),
{
    let mut out = String::new();
    let mut i: usize = start;
    while i < end
        invariant
            start <= i <= end <= text.len(),
            out@ == text@.subrange(start as int, i as int),
        decreases end - i,
    {
        out.push(text[i]);
        i = i + 1;
    }
    out
}

/// Whether `a` and `b` hold the same characters.
pub fn same_text(a: &str, b: &str) -> (r: bool)
    ensures
        r == (a@ == b@),
{
    let x = a.as_bytes();
    let y = b.as_bytes();
    proof {
        vstd::utf8::encode_utf8_decode_utf8(a@);
        vstd::utf8::encode_utf8_decode_utf8(b@);
    }
    if x.len() != y.len() {
        return false;
    }
    let mut i: usize = 0;
    while i < x.len()
        invariant
            i <= x.len(),
            x.len() == y.len(),
            x@ == encode_utf8(a@),
            y@ == encode_utf8(b@),
            forall|k: int| 0 <= k < i ==> x@[k] == y@[k],
        decreases x.len() - i,
    {
        if x[i] != y[i] {
            return false;
        }
        i = i + 1;
    }
    assert(x@ =~= y@);
    true
}

/// The lower-case form of a letter of the English alphabet; other characters stay.
pub open spec fn ascii_lower(c: char) -> char {
    if 'A' <= c <= 'Z' {
        (c as u32 + 32) as char
    } else {
        c
    }
}

/// `s` with each letter of the English alphabet in lower case.
pub open spec fn ascii_lowercase(s: Seq<char>) -> Seq<char> {
    Seq::new(s.len(), |i: int| ascii_lower(s[i]))
}

/// What `str::to_lowercase` returns for a text that is not all ASCII.
pub uninterp spec fn unicode_lowercase(s: Seq<char>) -> Seq<char>;

/// The lower-case form of `s`.
pub open spec fn lowercase(s: Seq<char>) -> Seq<char> {
    if is_ascii_chars(s) {
        ascii_lowercase(s)
    } else {
        unicode_lowercase(s)
    }
}

/// The lower-case form of an ASCII text is as long as the text, has the small letter
/// in place of each capital one, and every other character as it was.
pub proof fn lower_case_of_ascii(s: Seq<char>, i: int)
    requires
        is_ascii_chars(s),
        0 <= i < s.len(),
    ensures
        lowercase(s).len() == s.len(),
        'A' <= s[i] <= 'Z' ==> lowercase(s)[i] as u32 == s[i] as u32 + 32,
        !('A' <= s[i] <= 'Z') ==> lowercase(s)[i] == s[i],
        ascii_letter(s[i]) <==> 'a' <= lowercase(s)[i] <= 'z',
{
}

/// `str::to_lowercase`. An ASCII text comes back with its capital letters
/// replaced one for one. What becomes of any other text is fixed by that text
/// alone, and no capital letter of the English alphabet is left in it.
#[verifier::external_body]
pub(crate) fn to_lowercase(s: &str) -> (r: String)
    ensures
        is_ascii_chars(s@) ==> r@ == ascii_lowercase(s@),
        !is_ascii_chars(s@) ==> r@ == unicode_lowercase(s@),
        forall|i: int| 0 <= i < r@.len() ==> !('A' <= #[trigger] r@[i] <= 'Z'),
{
    s.to_lowercase()
}

/// `part` stands somewhere in `s`.
pub open spec fn has_part(s: Seq<char>, part: Seq<char>) -> bool {
    exists|i: int| #[trigger] stands_at(s, part, i)
}

/// `part` stands in `s` from position `i` on.
pub open spec fn stands_at(s: Seq<char>, part: Seq<char>, i: int) -> bool {
    0 <= i && i + part.len() <= s.len() && s.subrange(i, i + part.len()) == part
}

/// A part stands in a text exactly if the text is something, the part, and something.
pub proof fn parts_stand_between(s: Seq<char>, part: Seq<char>, a: Seq<char>, b: Seq<char>)
    ensures
        has_part(a + part + b, part),
        has_part(s, part) ==> exists|x: Seq<char>, y: Seq<char>| s == #[trigger] (x + part + y),
{
    assert((a + part + b).subrange(a.len() as int, (a.len() + part.len()) as int) =~= part);
    assert(stands_at(a + part + b, part, a.len() as int));
    if has_part(s, part) {
        let i = choose|i: int| #[trigger] stands_at(s, part, i);
        let x = s.take(i);
        let y = s.skip(i + part.len());
        assert(s =~= x + part + y) by {
            assert(s.subrange(i, i + part.len()) == part);
            assert forall|k: int| 0 <= k < s.len() implies s[k] == (x + part + y)[k] by {
                if i <= k < i + part.len() {
                    assert(s.subrange(i, i + part.len())[k - i] == part[k - i]);
                }
            }
        }
    }
}

/// Whether `part` stands somewhere in `s`.
pub fn contains(s: &str, part: &str) -> (r: bool)
    ensures
        r == has_part(s@, part@),
{
    let text = chars_of(s);
    let wanted = chars_of(part);
    if wanted.len() > text.len() {
        return false;
    }
    let last: usize = text.len() - wanted.len();
    let mut i: usize = 0;
    loop
        invariant
            text@ == s@,
            wanted@ == part@,
            last + wanted.len() == text.len(),
            i <= last,
            forall|k: int| 0 <= k < i ==> !stands_at(s@, part@, k),
        decreases last - i,
    {
        let mut j: usize = 0;
        while j < wanted.len() && text[i + j] == wanted[j]
            invariant
                text@ == s@,
                wanted@ == part@,
                last + wanted.len() == text.len(),
                i <= last,
                j <= wanted.len(),
                forall|k: int| 0 <= k < j ==> text@[i + k] == wanted@[k],
            decreases wanted.len() - j,
        {
            j = j + 1;
        }
        if j == wanted.len() {
            assert(s@.subrange(i as int, i + part@.len()) =~= part@);
            assert(stands_at(s@, part@, i as int));
            return true;
        }
        proof {
            if stands_at(s@, part@, i as int) {
                assert(s@.subrange(i as int, i + part@.len())[j as int] == part@[j as int]);
            }
        }
        if i == last {
            return false;
        }
        i = i + 1;
    }
}

/// The decimal digit of a number below ten.
pub open spec fn digit(n: nat) -> char {
    ('0' as u32 + n) as char
}

/// `n` in decimal, without leading zeros.
pub open spec fn decimal(n: nat) -> Seq<char>
    decreases n,
{
    if n < 10 {
        seq![digit(n)]
    } else {
        decimal(n / 10).push(digit(n % 10))
    }
}

/// `n` in decimal.
pub fn decimal_text(n: u64) -> (r: String)
    ensures
        r@ == decimal(n as nat),
    decreases n,
{
    let mut out = if n < 10 {
        String::new()
    } else {
        decimal_text(n / 10)
    };
    let d: u8 = (n % 10) as u8;
    out.push((48u8 + d) as char);
    out
}

/// A number below ten is written as its digit, and ten times a number and a digit as
/// the number and, behind it, the digit.
pub proof fn numbers_in_decimal(n: nat, d: nat)
    requires
        d < 10,
    ensures
        decimal(d) == seq![(48 + d) as char],
        n > 0 ==> decimal(10 * n + d) == decimal(n) + seq![(48 + d) as char],
{
    if n > 0 {
        assert((10 * n + d) / 10 == n && (10 * n + d) % 10 == d);
        assert(decimal(10 * n + d) =~= decimal(n) + seq![(48 + d) as char]);
    }
}

/// The characters of each string of a list.
pub open spec fn texts(v: Seq<String>) -> Seq<Seq<char>> {
    Seq::new(v.len(), |i: int| v[i]@)
}

/// The list of texts has the characters of each string in its place.
pub proof fn texts_of_strings(v: Seq<String>, i: int)
    ensures
        texts(v).len() == v.len(),
        0 <= i < v.len() ==> texts(v)[i] == v[i]@,
{
}

/// The parts in order, with `sep` between each two.
pub open spec fn joined(parts: Seq<Seq<char>>, sep: Seq<char>) -> Seq<char>
    decreases parts.len(),
{
    if parts.len() == 0 {
        Seq::empty()
    } else if parts.len() == 1 {
        parts[0]
    } else {
        joined(parts.drop_last(), sep) + sep + parts.last()
    }
}

/// The parts of two lists are joined by joining each and putting the separator
/// between them. One part alone is joined to itself, and none to nothing.
pub proof fn joined_lists(a: Seq<Seq<char>>, b: Seq<Seq<char>>, x: Seq<char>, sep: Seq<char>)
    ensures
        joined(Seq::empty(), sep) == Seq::<char>::empty(),
        joined(seq![x], sep) == x,
        a.len() > 0 && b.len() > 0 ==> joined(a + b, sep) == joined(a, sep) + sep + joined(b, sep),
    decreases b.len(),
{
    if a.len() > 0 && b.len() > 0 {
        assert((a + b).drop_last() =~= a + b.drop_last());
        assert((a + b).last() == b.last());
        if b.len() == 1 {
            assert(a + b.drop_last() =~= a);
            assert(b[0] == b.last());
        } else {
            joined_lists(a, b.drop_last(), x, sep);
            assert(joined(a + b, sep) =~= joined(a, sep) + sep + joined(b, sep));
        }
    }
}

/// The strings in order, with `sep` between each two.
pub fn join(parts: &Vec<String>, sep: &str) -> (r: String)
    ensures
        r@ == joined(texts(parts@), sep@),
{
    let mut out = String::new();
    let mut i: usize = 0;
    while i < parts.len()
        invariant
            i <= parts.len(),
            out@ == joined(texts(parts@).take(i as int), sep@),
        decreases parts.len() - i,
    {
        if i > 0 {
            out.append(sep);
        }
        out.append(parts[i].as_str());
        assert(texts(parts@).take(i + 1).drop_last() =~= texts(parts@).take(i as int));
        i = i + 1;
    }
    assert(texts(parts@).take(i as int) =~= texts(parts@));
    out
}

/// `n` blanks.
pub open spec fn blanks(n: nat) -> Seq<char> {
    Seq::new(n, |i: int| ' ')
}

/// `s` with blanks behind it up to a length of `width` characters.
pub open spec fn padded(s: Seq<char>, width: nat) -> Seq<char> {
    if s.len() < width {
        s + blanks((width - s.len()) as nat)
    } else {
        s
    }
}

/// A padded text is as long as the width or the text, whichever is longer; it begins
/// with the text, and blanks follow.
pub proof fn padding_is_blank(s: Seq<char>, width: nat, i: int)
    ensures
        padded(s, width).len() == if s.len() < width {
            width
        } else {
            s.len()
        },
        padded(s, width).take(s.len() as int) == s,
        s.len() <= i < width ==> padded(s, width)[i] == ' ',
{
    assert(padded(s, width).take(s.len() as int) =~= s);
}

/// `s` with blanks behind it up to a length of `width` characters.
pub fn pad_right(s: &str, width: u128) -> (r: String)
    ensures
        r@ == padded(s@, width as nat),
{
    let mut out = s.to_owned();
    let mut n: u128 = s.unicode_len() as u128;
    while n < width
        invariant
            n >= s@.len(),
            n == s@.len() || n <= width,
            out@ == s@ + blanks((n - s@.len()) as nat),
        decreases width - n,
    {
        out.push(' ');
        n = n + 1;
    }
    out
}

} // verus!
