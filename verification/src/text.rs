//! Character-level text routines.
//!
//! A text is modelled as its sequence of characters. Everything that looks inside a
//! text works on that sequence, so that no byte offset can ever fall inside a character.

use vstd::prelude::*;
use vstd::slice::slice_subrange;
use vstd::string::*;

verus! {

/// `String::push` appends the given character to the end of the string.
pub assume_specification[ String::push ](s: &mut String, c: char)
    ensures
        final(s)@ == old(s)@.push(c),
;

/// What `str::to_lowercase` makes of a text.
pub uninterp spec fn lowercase(s: Seq<char>) -> Seq<char>;

/// Whether every character is ASCII.
pub open spec fn all_ascii(s: Seq<char>) -> bool {
    forall|i: int| 0 <= i < s.len() ==> #[trigger] s[i] <= '\u{7f}'
}

/// An ASCII text in lower case.
pub open spec fn ascii_lowered(s: Seq<char>) -> Seq<char> {
    s.map_values(|c: char| ascii_lower(c))
}

/// Calls `str::to_lowercase`, the Unicode lower-casing of the standard library; its result
/// is named [`lowercase`]. An ASCII text is lowered letter by letter; of other texts nothing
/// else is claimed.
#[verifier::external_body]
pub(crate) fn to_lowercase(s: &str) -> (r: String)
    ensures
        r@ == lowercase(s@),
        all_ascii(s@) ==> r@ == ascii_lowered(s@),
{
    s.to_lowercase()
}

/// The characters with the Unicode property `White_Space`.
pub open spec fn is_white_space(c: char) -> bool {
    ||| '\u{9}' <= c <= '\u{d}'
    ||| c == ' '
    ||| c == '\u{85}'
    ||| c == '\u{a0}'
    ||| c == '\u{1680}'
    ||| '\u{2000}' <= c <= '\u{200a}'
    ||| c == '\u{2028}'
    ||| c == '\u{2029}'
    ||| c == '\u{202f}'
    ||| c == '\u{205f}'
    ||| c == '\u{3000}'
}

/// Whether `c` is white space.
pub fn white_space(c: char) -> (b: bool)
    ensures
        b == is_white_space(c),
{
    ('\u{9}' <= c && c <= '\u{d}') || c == ' ' || c == '\u{85}' || c == '\u{a0}' || c
        == '\u{1680}' || ('\u{2000}' <= c && c <= '\u{200a}') || c == '\u{2028}' || c
        == '\u{2029}' || c == '\u{202f}' || c == '\u{205f}' || c == '\u{3000}'
}

/// `s` without its leading white space.
pub open spec fn trim_start(s: Seq<char>) -> Seq<char>
    decreases s.len(),
{
    if s.len() > 0 && is_white_space(s[0]) {
        trim_start(s.drop_first())
    } else {
        s
    }
}

/// `s` without its trailing white space.
pub open spec fn trim_end(s: Seq<char>) -> Seq<char>
    decreases s.len(),
{
    if s.len() > 0 && is_white_space(s.last()) {
        trim_end(s.drop_last())
    } else {
        s
    }
}

/// `s` without white space at either end.
pub open spec fn trimmed(s: Seq<char>) -> Seq<char> {
    trim_end(trim_start(s))
}

/// A text with nothing but white space in it.
pub open spec fn is_blank(s: Seq<char>) -> bool {
    trimmed(s).len() == 0
}

/// Cuts white space off both ends.
pub fn trim(cs: &[char]) -> (r: &[char])
    ensures
        r@ == trimmed(cs@),
{
    let mut lo: usize = 0;
    let n: usize = cs.len();
    assert(cs@.subrange(0, n as int) =~= cs@);
    while lo < n && white_space(cs[lo])
        invariant
            lo <= n,
            n == cs@.len(),
            trim_start(cs@) == trim_start(cs@.subrange(lo as int, n as int)),
        decreases n - lo,
    {
        assert(cs@.subrange(lo as int, n as int).drop_first() =~= cs@.subrange(lo + 1, n as int));
        lo = lo + 1;
    }
    let mut hi: usize = n;
    let ghost started = trim_start(cs@);
    assert(started == cs@.subrange(lo as int, n as int));
    while lo < hi && white_space(cs[hi - 1])
        invariant
            lo <= hi <= n,
            n == cs@.len(),
            trim_end(started) == trim_end(cs@.subrange(lo as int, hi as int)),
        decreases hi - lo,
    {
        assert(cs@.subrange(lo as int, hi as int).drop_last() =~= cs@.subrange(
            lo as int,
            hi - 1,
        ));
        hi = hi - 1;
    }
    slice_subrange(cs, lo, hi)
}

/// The characters of a text.
pub fn chars_of(s: &str) -> (r: Vec<char>)
    ensures
        r@ == s@,
{
    let mut r: Vec<char> = Vec::new();
    for c in it: s.chars()
        invariant
            r@ == it.seq().take(it.index()),
            it.seq() == s@,
    {
        r.push(c);
    }
    r
}

/// The text with the given characters.
pub fn string_of(cs: &[char]) -> (r: String)
    ensures
        r@ == cs@,
{
    let mut r = String::new();
    let n: usize = cs.len();
    for i in 0..n
        invariant
            n == cs@.len(),
            r@ == cs@.take(i as int),
    {
        r.push(cs[i]);
    }
    assert(cs@.take(n as int) =~= cs@);
    r
}

/// Whether a text holds nothing but white space.
pub fn blank(s: &str) -> (b: bool)
    ensures
        b == is_blank(s@),
{
    let cs = chars_of(s);
    trim(&cs).len() == 0
}

/// The lower-case form of an ASCII character.
pub open spec fn ascii_lower(c: char) -> char {
    if 'A' <= c <= 'Z' {
        ((c as u8) + 32) as u8 as char
    } else {
        c
    }
}

/// The lower-case form of an ASCII character; any other character stays as it is.
pub fn to_ascii_lower(c: char) -> (r: char)
    ensures
        r == ascii_lower(c),
{
    if 'A' <= c && c <= 'Z' {
        ((c as u8) + 32) as char
    } else {
        c
    }
}

/// Whether `part` occurs in `s` at position `i`.
pub open spec fn occurs_at<A>(s: Seq<A>, part: Seq<A>, i: int) -> bool {
    0 <= i && i + part.len() <= s.len() && s.subrange(i, i + part.len()) == part
}

/// Whether `part` occurs in `s`.
pub open spec fn occurs_in<A>(s: Seq<A>, part: Seq<A>) -> bool {
    exists|i: int| #[trigger] occurs_at(s, part, i)
}

fn matches_at(s: &[char], part: &[char], i: usize) -> (b: bool)
    requires
        i + part@.len() <= s@.len(),
    ensures
        b == occurs_at(s@, part@, i as int),
{
    let n: usize = part.len();
    let total: usize = s.len();
    for j in 0..n
        invariant
            n == part@.len(),
            total == s@.len(),
            i + n <= total,
            s@.subrange(i as int, i + j) == part@.take(j as int),
    {
        if s[i + j] != part[j] {
            assert(s@.subrange(i as int, i + n)[j as int] != part@[j as int]);
            return false;
        }
        assert(s@.subrange(i as int, i + j + 1) =~= part@.take(j + 1));
    }
    assert(part@.take(n as int) =~= part@);
    true
}

/// Whether `part` occurs in `s`.
pub fn contains(s: &[char], part: &[char]) -> (b: bool)
    ensures
        b == occurs_in(s@, part@),
{
    let n: usize = s.len();
    let m: usize = part.len();
    if m > n {
        return false;
    }
    for i in 0..n - m
        invariant
            n == s@.len(),
            m == part@.len(),
            m <= n,
            forall|j: int| 0 <= j < i ==> !#[trigger] occurs_at(s@, part@, j),
    {
        if matches_at(s, part, i) {
            return true;
        }
    }
    matches_at(s, part, n - m)
}

/// The decimal digits of a number.
pub open spec fn decimal_digits(n: nat) -> Seq<char>
    decreases n,
{
    let digit = ((n % 10) + 48) as u8 as char;
    if n < 10 {
        seq![digit]
    } else {
        decimal_digits(n / 10).push(digit)
    }
}

/// A number in decimal.
pub fn decimal(n: u64) -> (r: String)
    ensures
        r@ == decimal_digits(n as nat),
    decreases n,
{
    let digit: char = ((n % 10) as u8 + 48) as char;
    let mut r = if n < 10 {
        String::new()
    } else {
        decimal(n / 10)
    };
    r.push(digit);
    assert(n < 10 ==> r@ =~= seq![digit]);
    r
}

/// The texts that the given strings hold.
pub open spec fn texts(v: Seq<String>) -> Seq<Seq<char>> {
    v.map_values(|s: String| s@)
}

/// `prefix` followed by `text`.
pub fn prefixed(prefix: &str, text: &str) -> (r: String)
    ensures
        r@ == prefix@ + text@,
{
    let mut r = String::from_str(prefix);
    r.append(text);
    r
}

/// Whether two texts are the same but for the case of ASCII letters; the second one is in lower
/// case.
pub open spec fn same_letters(s: Seq<char>, lower: Seq<char>) -> bool {
    s.map_values(|c: char| ascii_lower(c)) == lower
}

/// Whether two texts are the same but for the case of ASCII letters in the first one.
pub fn equal_letters(s: &[char], lower: &[char]) -> (b: bool)
    ensures
        b == same_letters(s@, lower@),
{
    let n: usize = s.len();
    if n != lower.len() {
        return false;
    }
    let ghost low = s@.map_values(|c: char| ascii_lower(c));
    for i in 0..n
        invariant
            n == s@.len(),
            n == lower@.len(),
            low == s@.map_values(|c: char| ascii_lower(c)),
            forall|j: int| 0 <= j < i ==> low[j] == #[trigger] lower@[j],
    {
        if to_ascii_lower(s[i]) != lower[i] {
            assert(low[i as int] != lower@[i as int]);
            return false;
        }
    }
    assert(low =~= lower@);
    true
}

/// The position of the first line feed in `s`, or its length if there is none.
pub open spec fn first_line_feed(s: Seq<char>) -> nat
    decreases s.len(),
{
    if s.len() == 0 || s[0] == '\n' {
        0
    } else {
        1 + first_line_feed(s.drop_first())
    }
}

/// A line without the carriage return that may end it.
pub open spec fn without_return(line: Seq<char>) -> Seq<char> {
    if line.len() > 0 && line.last() == '\r' {
        line.drop_last()
    } else {
        line
    }
}

/// The lines of a text. A line ends with a line feed, before which a carriage return may
/// stand; the last line need not end at all.
pub open spec fn lines_of(s: Seq<char>) -> Seq<Seq<char>>
    decreases s.len(),
{
    let n = first_line_feed(s);
    if s.len() == 0 {
        seq![]
    } else if n < s.len() {
        seq![without_return(s.take(n as int))] + lines_of(s.skip(n as int + 1))
    } else {
        seq![s]
    }
}

/// The lines of a text.
pub fn lines(s: &[char]) -> (r: Vec<String>)
    ensures
        texts(r@) == lines_of(s@),
{
    let mut r: Vec<String> = Vec::new();
    let n: usize = s.len();
    let mut pos: usize = 0;
    assert(s@.skip(0) =~= s@);
    assert(texts(r@) =~= Seq::<Seq<char>>::empty());
    while pos < n
        invariant
            pos <= n,
            n == s@.len(),
            texts(r@) + lines_of(s@.skip(pos as int)) == lines_of(s@),
        decreases n - pos,
    {
        let ghost rest = s@.skip(pos as int);
        let ghost before = r@;
        let mut end: usize = pos;
        while end < n && s[end] != '\n'
            invariant
                pos <= end <= n,
                n == s@.len(),
                rest == s@.skip(pos as int),
                first_line_feed(rest) == end - pos + first_line_feed(s@.skip(end as int)),
            decreases n - end,
        {
            assert(s@.skip(end as int).drop_first() =~= s@.skip(end + 1));
            end = end + 1;
        }
        assert(first_line_feed(s@.skip(end as int)) == 0);
        if end < n {
            let stop: usize = if end > pos && s[end - 1] == '\r' {
                end - 1
            } else {
                end
            };
            let line = string_of(slice_subrange(s, pos, stop));
            assert(line@ =~= without_return(rest.take(end - pos)));
            r.push(line);
            assert(rest.skip(end - pos + 1) =~= s@.skip(end + 1));
            assert(texts(before) + lines_of(rest) =~= texts(r@) + lines_of(s@.skip(end + 1)));
            pos = end + 1;
        } else {
            let line = string_of(slice_subrange(s, pos, n));
            assert(line@ =~= rest);
            r.push(line);
            assert(lines_of(s@.skip(n as int)) =~= Seq::<Seq<char>>::empty());
            assert(texts(before) + lines_of(rest) =~= texts(r@) + lines_of(s@.skip(n as int)));
            pos = n;
        }
    }
    assert(texts(r@) + lines_of(s@.skip(n as int)) =~= texts(r@));
    r
}

proof fn trim_start_is_stable(s: Seq<char>)
    ensures
        trim_start(s).len() > 0 ==> !is_white_space(trim_start(s)[0]),
        trim_start(trim_start(s)) == trim_start(s),
        trim_start(s).len() <= s.len(),
    decreases s.len(),
{
    if s.len() > 0 && is_white_space(s[0]) {
        trim_start_is_stable(s.drop_first());
    }
}

proof fn trim_end_is_stable(s: Seq<char>)
    ensures
        trim_end(s).len() > 0 ==> !is_white_space(trim_end(s).last()),
        trim_end(trim_end(s)) == trim_end(s),
        trim_end(s).len() <= s.len(),
        trim_end(s) == s.take(trim_end(s).len() as int),
    decreases s.len(),
{
    if s.len() > 0 && is_white_space(s.last()) {
        trim_end_is_stable(s.drop_last());
        let n = trim_end(s).len() as int;
        assert(s.drop_last().take(n) =~= s.take(n));
    } else {
        assert(s.take(s.len() as int) =~= s);
    }
}

/// A trimmed text neither starts nor ends with white space, and trimming it again changes
/// nothing.
pub proof fn trimming_is_stable(s: Seq<char>)
    ensures
        trimmed(s).len() > 0 ==> !is_white_space(trimmed(s)[0]) && !is_white_space(
            trimmed(s).last(),
        ),
        trimmed(trimmed(s)) == trimmed(s),
{
    let t = trim_start(s);
    trim_start_is_stable(s);
    trim_end_is_stable(t);
    if trimmed(s).len() > 0 {
        assert(trimmed(s)[0] == t[0]);
        assert(trim_start(trimmed(s)) == trimmed(s));
    }
}

/// Every character of a trimmed text comes from the text.
pub proof fn trimming_adds_nothing(s: Seq<char>)
    ensures
        forall|i: int| 0 <= i < trimmed(s).len() ==> s.contains(#[trigger] trimmed(s)[i]),
{
    let t = trim_start(s);
    trim_start_adds_nothing(s);
    trim_end_is_stable(t);
    assert forall|i: int| 0 <= i < trimmed(s).len() implies s.contains(#[trigger] trimmed(s)[i]) by {
        assert(trimmed(s)[i] == t[i]);
    }
}

proof fn trim_start_adds_nothing(s: Seq<char>)
    ensures
        forall|i: int| 0 <= i < trim_start(s).len() ==> s.contains(#[trigger] trim_start(s)[i]),
    decreases s.len(),
{
    if s.len() > 0 && is_white_space(s[0]) {
        trim_start_adds_nothing(s.drop_first());
        assert forall|i: int| 0 <= i < trim_start(s).len() implies s.contains(
            #[trigger] trim_start(s)[i],
        ) by {
            let rest = s.drop_first();
            assert(rest.contains(trim_start(rest)[i]));
            let j = choose|j: int| 0 <= j < rest.len() && rest[j] == trim_start(rest)[i];
            assert(s[j + 1] == rest[j]);
        }
    }
}

proof fn trim_start_cuts_white_space(s: Seq<char>) -> (n: int)
    ensures
        0 <= n <= s.len(),
        trim_start(s) == s.skip(n),
        forall|i: int| 0 <= i < n ==> is_white_space(#[trigger] s[i]),
    decreases s.len(),
{
    if s.len() > 0 && is_white_space(s[0]) {
        let m = trim_start_cuts_white_space(s.drop_first());
        assert(s.drop_first().skip(m) =~= s.skip(m + 1));
        assert forall|i: int| 0 <= i < m + 1 implies is_white_space(#[trigger] s[i]) by {
            if i > 0 {
                assert(is_white_space(s.drop_first()[i - 1]));
            }
        }
        m + 1
    } else {
        assert(s.skip(0) =~= s);
        0
    }
}

proof fn trim_end_cuts_white_space(s: Seq<char>)
    ensures
        trim_end(s).len() <= s.len(),
        trim_end(s) == s.take(trim_end(s).len() as int),
        forall|i: int| trim_end(s).len() <= i < s.len() ==> is_white_space(#[trigger] s[i]),
    decreases s.len(),
{
    trim_end_is_stable(s);
    if s.len() > 0 && is_white_space(s.last()) {
        trim_end_cuts_white_space(s.drop_last());
        assert forall|i: int| trim_end(s).len() <= i < s.len() implies is_white_space(
            #[trigger] s[i],
        ) by {
            if i < s.len() - 1 {
                assert(is_white_space(s.drop_last()[i]));
            }
        }
    }
}

/// Whether `core` is `s` between `lo` and `hi`, and nothing but white space is around it.
pub open spec fn between_white_space(s: Seq<char>, lo: int, hi: int, core: Seq<char>) -> bool {
    &&& 0 <= lo <= hi <= s.len()
    &&& core == s.subrange(lo, hi)
    &&& forall|i: int| 0 <= i < lo || hi <= i < s.len() ==> is_white_space(#[trigger] s[i])
}

/// A trimmed text is a stretch of the text in one piece: what is cut off both ends is white
/// space, and the stretch neither starts nor ends with any.
pub proof fn trimming_cuts_white_space_only(s: Seq<char>)
    ensures
        exists|lo: int, hi: int| #[trigger] between_white_space(s, lo, hi, trimmed(s)),
        trimmed(s).len() > 0 ==> !is_white_space(trimmed(s)[0]) && !is_white_space(
            trimmed(s).last(),
        ),
{
    let lo = trim_start_cuts_white_space(s);
    let t = trim_start(s);
    trim_end_cuts_white_space(t);
    trimming_is_stable(s);
    let hi = lo + trimmed(s).len();
    assert(trimmed(s) =~= s.subrange(lo, hi));
    assert forall|i: int| 0 <= i < lo || hi <= i < s.len() implies is_white_space(
        #[trigger] s[i],
    ) by {
        if hi <= i {
            assert(is_white_space(t[i - lo]));
        }
    }
    assert(between_white_space(s, lo, hi, trimmed(s)));
}

/// A text is blank exactly if every character of it is white space.
pub proof fn blank_texts_are_white_space(s: Seq<char>)
    ensures
        is_blank(s) <==> forall|i: int| 0 <= i < s.len() ==> is_white_space(#[trigger] s[i]),
{
    trimming_cuts_white_space_only(s);
    let (lo, hi) = choose|lo: int, hi: int| #[trigger] between_white_space(s, lo, hi, trimmed(s));
    if is_blank(s) {
        assert(lo == hi);
    } else {
        assert(trimmed(s)[0] == s[lo]);
    }
}

/// White space is what Unicode says: besides the space and the controls from tab to carriage
/// return these are the next-line control, the no-break spaces, the spaces of a fixed width and
/// the separators of lines and paragraphs. No other character up to U+00FF is, no letter or
/// digit of ASCII, and none of the zero-width characters.
pub proof fn white_space_is_that_of_unicode(c: char)
    ensures
        c as u32 <= 0xff ==> (is_white_space(c) <==> 9 <= c as u32 <= 13 || c as u32 == 32 || c as u32
            == 0x85 || c as u32 == 0xa0),
        0x100 <= c as u32 <= 0x1fff ==> (is_white_space(c) <==> c as u32 == 0x1680),
        0x2000 <= c as u32 <= 0x206f ==> (is_white_space(c) <==> c as u32 <= 0x200a || c as u32
            == 0x2028 || c as u32 == 0x2029 || c as u32 == 0x202f || c as u32 == 0x205f),
        c as u32 >= 0x2070 ==> (is_white_space(c) <==> c as u32 == 0x3000),
{
}

/// Lowering an ASCII character moves the 26 capital letters by 32 and nothing else, so the
/// lower-case form of a text is as long as the text, and lowering it again changes nothing.
pub proof fn lowering_moves_capitals_only(s: Seq<char>)
    ensures
        ascii_lowered(s).len() == s.len(),
        forall|i: int|
            0 <= i < s.len() ==> {
                let c = #[trigger] s[i];
                ascii_lowered(s)[i] as int == if 65 <= c as int <= 90 {
                    c as int + 32
                } else {
                    c as int
                }
            },
        ascii_lowered(ascii_lowered(s)) == ascii_lowered(s),
        same_letters(s, ascii_lowered(s)),
{
    assert forall|i: int| 0 <= i < s.len() implies {
        let c = #[trigger] s[i];
        ascii_lowered(s)[i] as int == if 65 <= c as int <= 90 {
            c as int + 32
        } else {
            c as int
        }
    } by {
        assert(ascii_lowered(s)[i] == ascii_lower(s[i]));
    }
    assert(ascii_lowered(ascii_lowered(s)) =~= ascii_lowered(s));
}

/// Two texts have the same letters exactly if they are equally long and each character of the
/// first one is the character of the second one or, if that is a small letter, its capital.
pub proof fn letters_are_compared_one_by_one(s: Seq<char>, lower: Seq<char>)
    ensures
        same_letters(s, lower) <==> {
            &&& s.len() == lower.len()
            &&& forall|i: int|
                0 <= i < s.len() ==> {
                    let (c, l) = (#[trigger] s[i] as int, lower[i] as int);
                    ||| c == l && !(65 <= c <= 90)
                    ||| 97 <= l <= 122 && c == l - 32
                }
        },
{
    let low = s.map_values(|c: char| ascii_lower(c));
    if same_letters(s, lower) {
        assert forall|i: int| 0 <= i < s.len() implies ({
            let (c, l) = (#[trigger] s[i] as int, lower[i] as int);
            ||| c == l && !(65 <= c <= 90)
            ||| 97 <= l <= 122 && c == l - 32
        }) by {
            assert(low[i] == ascii_lower(s[i]));
        }
    }
    if s.len() == lower.len() && forall|i: int|
        0 <= i < s.len() ==> ({
            let (c, l) = (#[trigger] s[i] as int, lower[i] as int);
            ||| c == l && !(65 <= c <= 90)
            ||| 97 <= l <= 122 && c == l - 32
        }) {
        assert forall|i: int| 0 <= i < s.len() implies low[i] == lower[i] by {
            let c = s[i];
            assert(low[i] == ascii_lower(c));
        }
        assert(low =~= lower);
    }
}

/// Whether `s` is `part` with `a` before it and `b` behind it.
pub open spec fn surrounded<A>(s: Seq<A>, a: Seq<A>, part: Seq<A>, b: Seq<A>) -> bool {
    s == a + part + b
}

/// A text occurs in another one exactly if that consists of something, the text and something
/// else. So the empty text occurs everywhere, every text in itself, and nothing longer does.
pub proof fn occurrences_are_surrounded<A>(s: Seq<A>, part: Seq<A>)
    ensures
        occurs_in(s, part) <==> exists|a: Seq<A>, b: Seq<A>| #[trigger] surrounded(s, a, part, b),
        occurs_in(s, s),
        occurs_in(s, Seq::<A>::empty()),
        part.len() > s.len() ==> !occurs_in(s, part),
{
    if occurs_in(s, part) {
        let i = choose|i: int| #[trigger] occurs_at(s, part, i);
        assert(s =~= s.take(i) + part + s.skip(i + part.len()));
        assert(surrounded(s, s.take(i), part, s.skip(i + part.len())));
    }
    if exists|a: Seq<A>, b: Seq<A>| #[trigger] surrounded(s, a, part, b) {
        let (a, b) = choose|a: Seq<A>, b: Seq<A>| #[trigger] surrounded(s, a, part, b);
        assert(s.subrange(a.len() as int, (a.len() + part.len()) as int) =~= part);
        assert(occurs_at(s, part, a.len() as int));
    }
    assert(s.subrange(0, s.len() as int) =~= s);
    assert(occurs_at(s, s, 0));
    assert(s.subrange(0, 0) =~= Seq::<A>::empty());
    assert(occurs_at(s, Seq::<A>::empty(), 0));
}

/// The number that some decimal digits stand for.
pub open spec fn value_of_digits(digits: Seq<char>) -> int
    decreases digits.len(),
{
    if digits.len() == 0 {
        0
    } else {
        10 * value_of_digits(digits.drop_last()) + (digits.last() as int - 48)
    }
}

/// The decimal digits of a number are digits, stand for the number, and do not start with a
/// needless zero.
pub proof fn digits_stand_for_their_number(n: nat)
    ensures
        value_of_digits(decimal_digits(n)) == n,
        decimal_digits(n).len() > 0,
        forall|i: int|
            0 <= i < decimal_digits(n).len() ==> 48 <= #[trigger] decimal_digits(n)[i] as int <= 57,
        decimal_digits(n).len() > 1 ==> decimal_digits(n)[0] as int > 48,
    decreases n,
{
    let digits = decimal_digits(n);
    if n >= 10 {
        digits_stand_for_their_number(n / 10);
        assert(digits.drop_last() =~= decimal_digits(n / 10));
        assert(digits[0] == decimal_digits(n / 10)[0]);
        if decimal_digits(n / 10).len() == 1 {
            assert(value_of_digits(decimal_digits(n / 10).drop_last()) == 0);
        }
    } else {
        assert(digits.drop_last() =~= Seq::<char>::empty());
        assert(value_of_digits(digits.drop_last()) == 0);
    }
}

proof fn line_feed_ends_the_line(line: Seq<char>, rest: Seq<char>)
    requires
        !line.contains('\n'),
    ensures
        first_line_feed(line + seq!['\n'] + rest) == line.len(),
        first_line_feed(line) == line.len(),
    decreases line.len(),
{
    let all = line + seq!['\n'] + rest;
    if line.len() > 0 {
        let tail = line.drop_first();
        assert(line.contains(line[0]));
        assert forall|i: int| 0 <= i < tail.len() implies tail[i] != '\n' by {
            assert(line.contains(line[i + 1]));
        }
        line_feed_ends_the_line(tail, rest);
        assert(all.drop_first() =~= tail + seq!['\n'] + rest);
    }
}

/// The first line of a text is what stands before its first line feed, without a carriage
/// return there; the lines of what follows are the other ones. What stands behind the last line
/// feed is a line, as it is, if there is anything.
pub proof fn lines_end_at_line_feeds(line: Seq<char>, rest: Seq<char>)
    requires
        !line.contains('\n'),
    ensures
        lines_of(Seq::<char>::empty()).len() == 0,
        line.len() > 0 ==> lines_of(line) == seq![line],
        line.len() == 0 || line.last() != '\r' ==> lines_of(line + seq!['\n'] + rest) == seq![line]
            + lines_of(rest),
        lines_of(line + seq!['\r', '\n'] + rest) == seq![line] + lines_of(rest),
{
    line_feed_ends_the_line(line, rest);
    let all = line + seq!['\n'] + rest;
    assert(all.take(line.len() as int) =~= line);
    assert(all.skip(line.len() as int + 1) =~= rest);
    let ended = line.push('\r');
    assert forall|i: int| 0 <= i < ended.len() implies ended[i] != '\n' by {
        if i < line.len() {
            assert(line.contains(line[i]));
        }
    }
    line_feed_ends_the_line(ended, rest);
    let other = line + seq!['\r', '\n'] + rest;
    assert(other =~= ended + seq!['\n'] + rest);
    assert(other.take(ended.len() as int) =~= ended);
    assert(other.skip(ended.len() as int + 1) =~= rest);
    assert(ended.drop_last() =~= line);
}

/// What is said of some strings is said of each of them as it is.
pub proof fn texts_are_seen_one_by_one(v: Seq<String>)
    ensures
        texts(v).len() == v.len(),
        forall|i: int| 0 <= i < v.len() ==> #[trigger] texts(v)[i] == v[i]@,
{
}

/// A text is found blank exactly if all of its characters are white space, and trimming leaves a
/// stretch of it in one piece, with nothing but white space around it and none at its ends.
pub proof fn trimming_and_blankness_agree(s: &str, b: bool, cs: &[char], r: &[char])
    requires
        call_ensures(blank, (s,), b),
        call_ensures(trim, (cs,), r),
    ensures
        b <==> forall|i: int| 0 <= i < s@.len() ==> is_white_space(#[trigger] s@[i]),
        exists|lo: int, hi: int| #[trigger] between_white_space(cs@, lo, hi, r@),
        r@.len() > 0 ==> !is_white_space(r@[0]) && !is_white_space(r@.last()),
        s@ == cs@ ==> (b <==> r@.len() == 0),
{
    blank_texts_are_white_space(s@);
    trimming_cuts_white_space_only(cs@);
}

/// A text is found in another one exactly if that consists of something, the text and something
/// else; and the digits of a number stand for it.
pub proof fn searching_and_counting_are_exact(
    s: &[char],
    part: &[char],
    b: bool,
    n: u64,
    digits: String,
)
    requires
        call_ensures(contains, (s, part), b),
        call_ensures(decimal, (n,), digits),
    ensures
        b <==> exists|x: Seq<char>, y: Seq<char>| #[trigger] surrounded(s@, x, part@, y),
        value_of_digits(digits@) == n,
        digits@.len() > 1 ==> digits@[0] != '0',
{
    occurrences_are_surrounded(s@, part@);
    digits_stand_for_their_number(n as nat);
}

/// Taking a text apart into its characters and putting these together again gives the text.
pub proof fn characters_make_up_the_text(s: &str, cs: Vec<char>, copy: &[char], r: String)
    requires
        call_ensures(chars_of, (s,), cs),
        copy@ == cs@,
        call_ensures(string_of, (copy,), r),
    ensures
        r@ == s@,
        cs@ == s@,
{
}

} // verus!
