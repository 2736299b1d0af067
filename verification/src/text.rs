//! Text helpers shared by both halves of the crate.
//!
//! Every contract speaks of a string through its view, the sequence of its
//! characters.

use vstd::prelude::*;

verus! {

broadcast use vstd::string::group_string_axioms;

/// `String::push` appends the character to the end of the string.
pub assume_specification[ std::string::String::push ](s: &mut std::string::String, c: char)
    ensures
        final(s)@ == old(s)@.push(c),
;

/// The views of a sequence of strings.
pub open spec fn views(strings: Seq<String>) -> Seq<Seq<char>> {
    strings.map_values(|s: String| s@)
}

/// The view of a string that may be absent.
pub open spec fn view_opt(s: Option<String>) -> Option<Seq<char>> {
    match s {
        Some(text) => Some(text@),
        None => None,
    }
}

/// The characters of `s`, one per element.
pub fn chars_of(s: &str) -> (chars: Vec<char>)
    ensures
        chars@ == s@,
{
    let mut chars: Vec<char> = Vec::new();
    for c in it: s.chars()
        invariant
            it.seq() == s@,
            chars@ == it.seq().take(it.index() as int),
    {
        proof {
            assert(it.seq().take(it.index() + 1) =~= it.seq().take(it.index() as int).push(c));
        }
        chars.push(c);
    }
    proof {
        assert(s@.take(s@.len() as int) =~= s@);
    }
    chars
}

/// The string holding the characters `from..to` of `chars`.
pub fn string_between(chars: &Vec<char>, from: usize, to: usize) -> (s: String)
    requires
        from <= to <= chars@.len(),
    ensures
        s@ == chars@.subrange(from as int, to as int),
{
    let mut s: String = String::new();
    let mut i: usize = from;
    while i < to
        invariant
            from <= i <= to <= chars@.len(),
            s@ == chars@.subrange(from as int, i as int),
        decreases to - i,
    {
        s.push(chars[i]);
        i = i + 1;
        proof {
            assert(chars@.subrange(from as int, i as int) =~= chars@.subrange(
                from as int,
                i - 1,
            ).push(chars@[i - 1]));
        }
    }
    s
}

/// The string made of `chars`.
pub fn string_of(chars: &Vec<char>) -> (s: String)
    ensures
        s@ == chars@,
{
    let s: String = string_between(chars, 0, chars.len());
    proof {
        assert(chars@.subrange(0, chars@.len() as int) =~= chars@);
    }
    s
}

/// Whether two strings hold the same characters.
pub fn same(a: &str, b: &str) -> (r: bool)
    ensures
        r == (a@ == b@),
{
    a.to_owned() == b.to_owned()
}

/// Whether `s` begins with `prefix`.
pub fn starts_with(s: &str, prefix: &str) -> (r: bool)
    ensures
        r == prefix@.is_prefix_of(s@),
{
    let text: Vec<char> = chars_of(s);
    let head: Vec<char> = chars_of(prefix);
    occurs_at(&text, 0, &head)
}

/// Whether `pattern` stands in `text` at position `at`.
pub open spec fn is_at(text: Seq<char>, at: int, pattern: Seq<char>) -> bool {
    0 <= at && at + pattern.len() <= text.len() && text.subrange(at, at + pattern.len()) == pattern
}

/// Whether `pattern` stands in `text` at position `at`.
pub fn occurs_at(text: &Vec<char>, at: usize, pattern: &Vec<char>) -> (r: bool)
    ensures
        r == is_at(text@, at as int, pattern@),
        at == 0 ==> r == pattern@.is_prefix_of(text@),
{
    if at > text.len() || text.len() - at < pattern.len() {
        return false;
    }
    let mut i: usize = 0;
    while i < pattern.len()
        invariant
            i <= pattern@.len(),
            at + pattern.len() <= text.len(),
            text@.subrange(at as int, at + i) == pattern@.take(i as int),
        decreases pattern.len() - i,
    {
        if text[at + i] != pattern[i] {
            proof {
                assert(text@.subrange(at as int, at + pattern@.len())[i as int] == text@[at + i]);
            }
            return false;
        }
        proof {
            assert(text@.subrange(at as int, at + i + 1) =~= text@.subrange(
                at as int,
                at + i,
            ).push(text@[at + i]));
            assert(pattern@.take(i + 1) =~= pattern@.take(i as int).push(pattern@[i as int]));
        }
        i = i + 1;
    }
    proof {
        assert(pattern@.take(pattern@.len() as int) =~= pattern@);
    }
    true
}

/// Whether `c` stands anywhere in `s`.
pub fn contains_char(s: &str, c: char) -> (r: bool)
    ensures
        r == s@.contains(c),
{
    let chars: Vec<char> = chars_of(s);
    let mut i: usize = 0;
    while i < chars.len()
        invariant
            i <= chars@.len(),
            chars@ == s@,
            forall|j: int| 0 <= j < i ==> chars@[j] != c,
        decreases chars.len() - i,
    {
        if chars[i] == c {
            return true;
        }
        i = i + 1;
    }
    false
}

/// The parts of `s` between occurrences of `sep`; one part more than there are
/// occurrences.
pub open spec fn split(s: Seq<char>, sep: char) -> Seq<Seq<char>>
    decreases s.len(),
{
    if s.len() == 0 {
        seq![Seq::<char>::empty()]
    } else {
        let before = split(s.drop_last(), sep);
        if s.last() == sep {
            before.push(Seq::<char>::empty())
        } else {
            before.drop_last().push(before.last().push(s.last()))
        }
    }
}

/// A split has at least one part.
pub proof fn lemma_split_nonempty(s: Seq<char>, sep: char)
    ensures
        split(s, sep).len() >= 1,
    decreases s.len(),
{
    if s.len() > 0 {
        lemma_split_nonempty(s.drop_last(), sep);
    }
}

/// Two strings that split into the same parts are the same.
pub proof fn lemma_split_injective(a: Seq<char>, b: Seq<char>, sep: char)
    requires
        split(a, sep) == split(b, sep),
    ensures
        a == b,
    decreases a.len(),
{
    lemma_split_nonempty(a, sep);
    if a.len() == 0 && b.len() == 0 {
        assert(a =~= b);
    } else if a.len() == 0 {
        lemma_split_nonempty(b.drop_last(), sep);
        assert(split(b, sep).last().len() == 0);
        assert(false);
    } else if b.len() == 0 {
        lemma_split_nonempty(a.drop_last(), sep);
        assert(split(b, sep).last().len() == 0);
        assert(false);
    } else {
        let sa = split(a.drop_last(), sep);
        let sb = split(b.drop_last(), sep);
        lemma_split_nonempty(a.drop_last(), sep);
        lemma_split_nonempty(b.drop_last(), sep);
        if a.last() == sep {
            assert(split(a, sep).last().len() == 0);
            assert(b.last() == sep);
            assert(split(a, sep).drop_last() =~= sa);
            assert(split(b, sep).drop_last() =~= sb);
        } else {
            assert(split(a, sep).last().len() > 0);
            assert(b.last() != sep);
            assert(split(a, sep).last() == sa.last().push(a.last()));
            assert(split(b, sep).last() == sb.last().push(b.last()));
            assert(sa.last().push(a.last()).last() == a.last());
            assert(sb.last().push(b.last()).last() == b.last());
            assert(sa.last().push(a.last()).drop_last() =~= sa.last());
            assert(sb.last().push(b.last()).drop_last() =~= sb.last());
            assert(split(a, sep).drop_last() =~= sa.drop_last());
            assert(split(b, sep).drop_last() =~= sb.drop_last());
            assert(sa =~= sa.drop_last().push(sa.last()));
            assert(sb =~= sb.drop_last().push(sb.last()));
        }
        lemma_split_injective(a.drop_last(), b.drop_last(), sep);
        assert(a =~= a.drop_last().push(a.last()));
        assert(b =~= b.drop_last().push(b.last()));
    }
}

/// Split `s` at every occurrence of `sep`.
pub fn split_at_char(s: &str, sep: char) -> (parts: Vec<String>)
    ensures
        views(parts@) == split(s@, sep),
        parts@.len() >= 1,
{
    let chars: Vec<char> = chars_of(s);
    let mut parts: Vec<String> = Vec::new();
    let mut current: String = String::new();
    let mut i: usize = 0;
    proof {
        assert(chars@.take(0) =~= Seq::<char>::empty());
        assert(views(parts@).push(current@) =~= seq![Seq::<char>::empty()]);
    }
    while i < chars.len()
        invariant
            i <= chars@.len(),
            chars@ == s@,
            views(parts@).push(current@) == split(chars@.take(i as int), sep),
        decreases chars.len() - i,
    {
        let c: char = chars[i];
        let ghost before = views(parts@).push(current@);
        proof {
            assert(chars@.take(i + 1).drop_last() =~= chars@.take(i as int));
            assert(before.drop_last() =~= views(parts@));
        }
        if c == sep {
            let mut done: String = String::new();
            std::mem::swap(&mut done, &mut current);
            parts.push(done);
            proof {
                assert(views(parts@) =~= before);
            }
        } else {
            current.push(c);
        }
        i = i + 1;
    }
    let ghost old_parts = parts@;
    parts.push(current);
    proof {
        assert(chars@.take(chars@.len() as int) =~= s@);
        assert(views(parts@) =~= views(old_parts).push(current@));
    }
    parts
}

/// `with` before the first character, between any two, and after the last.
pub open spec fn interleaved(s: Seq<char>, with: Seq<char>) -> Seq<char>
    decreases s.len(),
{
    if s.len() == 0 {
        with
    } else {
        with + seq![s[0]] + interleaved(s.skip(1), with)
    }
}

/// `s` with every non-overlapping occurrence of `pattern`, found from left to
/// right, replaced by `with`. The empty pattern stands at every boundary.
pub open spec fn replaced(s: Seq<char>, pattern: Seq<char>, with: Seq<char>) -> Seq<char>
    decreases s.len(),
{
    if pattern.len() == 0 {
        interleaved(s, with)
    } else if s.len() == 0 {
        s
    } else if pattern.is_prefix_of(s) {
        with + replaced(s.skip(pattern.len() as int), pattern, with)
    } else {
        seq![s[0]] + replaced(s.skip(1), pattern, with)
    }
}

/// Replace every occurrence of `pattern` in `s` by `with`.
pub fn replace_all(s: &str, pattern: &str, with: &str) -> (out: String)
    ensures
        out@ == replaced(s@, pattern@, with@),
{
    let text: Vec<char> = chars_of(s);
    let pat: Vec<char> = chars_of(pattern);
    let mut out: String = String::new();
    let mut i: usize = 0;
    proof {
        assert(text@.skip(0) =~= text@);
        assert(out@ + replaced(s@, pattern@, with@) =~= replaced(s@, pattern@, with@));
        assert(out@ + interleaved(s@, with@) =~= interleaved(s@, with@));
    }
    if pat.len() == 0 {
        while i < text.len()
            invariant
                i <= text@.len(),
                out@ + interleaved(text@.skip(i as int), with@) == interleaved(text@, with@),
            decreases text.len() - i,
        {
            let ghost before = out@;
            out.append(with);
            out.push(text[i]);
            proof {
                assert(text@.skip(i as int).skip(1) =~= text@.skip(i + 1));
                assert(out@ + interleaved(text@.skip(i + 1), with@) =~= before + interleaved(
                    text@.skip(i as int),
                    with@,
                ));
            }
            i = i + 1;
        }
        out.append(with);
        return out;
    }
    while i < text.len()
        invariant
            i <= text@.len(),
            pat@ == pattern@,
            pat@.len() > 0,
            out@ + replaced(text@.skip(i as int), pattern@, with@) == replaced(
                text@,
                pattern@,
                with@,
            ),
        decreases text.len() - i,
    {
        let ghost before = out@;
        let ghost rest = text@.skip(i as int);
        if occurs_at(&text, i, &pat) {
            out.append(with);
            proof {
                assert(rest.subrange(0, pat@.len() as int) =~= text@.subrange(
                    i as int,
                    i + pat@.len(),
                ));
                assert(pattern@.is_prefix_of(rest));
                assert(rest.skip(pat@.len() as int) =~= text@.skip(i + pat@.len()));
                assert(out@ + replaced(text@.skip(i + pat@.len()), pattern@, with@) =~= before
                    + replaced(rest, pattern@, with@));
            }
            i = i + pat.len();
        } else {
            out.push(text[i]);
            proof {
                if pattern@.is_prefix_of(rest) {
                    assert(rest.subrange(0, pat@.len() as int) =~= text@.subrange(
                        i as int,
                        i + pat@.len(),
                    ));
                    assert(false);
                }
                assert(rest.skip(1) =~= text@.skip(i + 1));
                assert(out@ + replaced(text@.skip(i + 1), pattern@, with@) =~= before + replaced(
                    rest,
                    pattern@,
                    with@,
                ));
            }
            i = i + 1;
        }
    }
    proof {
        assert(text@.skip(i as int) =~= Seq::<char>::empty());
        assert(out@ + Seq::<char>::empty() =~= out@);
    }
    out
}

/// Whether `c` has the Unicode `White_Space` property.
pub open spec fn is_white(c: char) -> bool {
    ||| 0x9 <= c as u32 <= 0xD
    ||| c as u32 == 0x20
    ||| c as u32 == 0x85
    ||| c as u32 == 0xA0
    ||| c as u32 == 0x1680
    ||| 0x2000 <= c as u32 <= 0x200A
    ||| c as u32 == 0x2028
    ||| c as u32 == 0x2029
    ||| c as u32 == 0x202F
    ||| c as u32 == 0x205F
    ||| c as u32 == 0x3000
}

/// Whether `c` has the Unicode `White_Space` property.
pub fn is_whitespace(c: char) -> (r: bool)
    ensures
        r == is_white(c),
{
    let u: u32 = c as u32;
    (0x9 <= u && u <= 0xD) || u == 0x20 || u == 0x85 || u == 0xA0 || u == 0x1680 || (0x2000 <= u
        && u <= 0x200A) || u == 0x2028 || u == 0x2029 || u == 0x202F || u == 0x205F || u == 0x3000
}

/// `s` without the white space at its end.
pub open spec fn trimmed_end(s: Seq<char>) -> Seq<char>
    decreases s.len(),
{
    if s.len() > 0 && is_white(s.last()) {
        trimmed_end(s.drop_last())
    } else {
        s
    }
}

/// `s` without the white space at its start.
pub open spec fn trimmed_start(s: Seq<char>) -> Seq<char>
    decreases s.len(),
{
    if s.len() > 0 && is_white(s[0]) {
        trimmed_start(s.skip(1))
    } else {
        s
    }
}

/// `s` without the white space at either end.
pub open spec fn trimmed(s: Seq<char>) -> Seq<char> {
    trimmed_end(trimmed_start(s))
}

/// Drop the white space at the end of `s`.
pub fn trim_end(s: &str) -> (out: String)
    ensures
        out@ == trimmed_end(s@),
{
    let chars: Vec<char> = chars_of(s);
    let mut end: usize = chars.len();
    proof {
        assert(chars@.take(end as int) =~= s@);
    }
    while end > 0 && is_whitespace(chars[end - 1])
        invariant
            end <= chars@.len(),
            trimmed_end(chars@.take(end as int)) == trimmed_end(s@),
        decreases end,
    {
        proof {
            assert(chars@.take(end as int).drop_last() =~= chars@.take(end - 1));
        }
        end = end - 1;
    }
    proof {
        assert(chars@.subrange(0, end as int) =~= chars@.take(end as int));
    }
    string_between(&chars, 0, end)
}

/// Drop the white space at both ends of `s`.
pub fn trim(s: &str) -> (out: String)
    ensures
        out@ == trimmed(s@),
{
    let chars: Vec<char> = chars_of(s);
    let mut start: usize = 0;
    proof {
        assert(chars@.skip(0) =~= s@);
    }
    while start < chars.len() && is_whitespace(chars[start])
        invariant
            start <= chars@.len(),
            trimmed_start(chars@.skip(start as int)) == trimmed_start(s@),
        decreases chars.len() - start,
    {
        proof {
            assert(chars@.skip(start as int).skip(1) =~= chars@.skip(start + 1));
        }
        start = start + 1;
    }
    proof {
        assert(chars@.subrange(start as int, chars@.len() as int) =~= chars@.skip(start as int));
    }
    let tail: String = string_between(&chars, start, chars.len());
    trim_end(&tail)
}

/// `s` without the run of `c` at its end.
pub open spec fn without_trailing(s: Seq<char>, c: char) -> Seq<char>
    decreases s.len(),
{
    if s.len() > 0 && s.last() == c {
        without_trailing(s.drop_last(), c)
    } else {
        s
    }
}

/// Drop the run of `c` at the end of `s`.
pub fn trim_end_char(s: &str, c: char) -> (out: String)
    ensures
        out@ == without_trailing(s@, c),
{
    let chars: Vec<char> = chars_of(s);
    let mut end: usize = chars.len();
    proof {
        assert(chars@.take(end as int) =~= s@);
    }
    while end > 0 && chars[end - 1] == c
        invariant
            end <= chars@.len(),
            without_trailing(chars@.take(end as int), c) == without_trailing(s@, c),
        decreases end,
    {
        proof {
            assert(chars@.take(end as int).drop_last() =~= chars@.take(end - 1));
        }
        end = end - 1;
    }
    proof {
        assert(chars@.subrange(0, end as int) =~= chars@.take(end as int));
    }
    string_between(&chars, 0, end)
}

/// The upper-case form of an ASCII letter; any other character unchanged.
pub open spec fn ascii_upper_char(c: char) -> char {
    if 'a' <= c <= 'z' {
        (c as u32 - 32) as char
    } else {
        c
    }
}

/// The lower-case form of an ASCII letter; any other character unchanged.
pub open spec fn ascii_lower_char(c: char) -> char {
    if 'A' <= c <= 'Z' {
        (c as u32 + 32) as char
    } else {
        c
    }
}

/// `s` with its ASCII letters in upper case.
pub open spec fn ascii_uppered(s: Seq<char>) -> Seq<char> {
    s.map_values(|c: char| ascii_upper_char(c))
}

/// `s` with its ASCII letters in lower case.
pub open spec fn ascii_lowered(s: Seq<char>) -> Seq<char> {
    s.map_values(|c: char| ascii_lower_char(c))
}

/// `s` with its ASCII letters in upper case.
pub fn ascii_upper(s: &str) -> (out: String)
    ensures
        out@ == ascii_uppered(s@),
{
    let chars: Vec<char> = chars_of(s);
    let mut out: String = String::new();
    let mut i: usize = 0;
    while i < chars.len()
        invariant
            i <= chars@.len(),
            out@ == ascii_uppered(chars@.take(i as int)),
        decreases chars.len() - i,
    {
        let c: char = chars[i];
        let upper: char = if 'a' <= c && c <= 'z' {
            ((c as u8) - 32u8) as char
        } else {
            c
        };
        out.push(upper);
        i = i + 1;
        proof {
            assert(out@ =~= ascii_uppered(chars@.take(i as int)));
        }
    }
    proof {
        assert(chars@.take(i as int) =~= s@);
    }
    out
}

/// `s` with its ASCII letters in lower case.
pub fn ascii_lower(s: &str) -> (out: String)
    ensures
        out@ == ascii_lowered(s@),
{
    let chars: Vec<char> = chars_of(s);
    let mut out: String = String::new();
    let mut i: usize = 0;
    while i < chars.len()
        invariant
            i <= chars@.len(),
            out@ == ascii_lowered(chars@.take(i as int)),
        decreases chars.len() - i,
    {
        let c: char = chars[i];
        let lower: char = if 'A' <= c && c <= 'Z' {
            ((c as u8) + 32u8) as char
        } else {
            c
        };
        out.push(lower);
        i = i + 1;
        proof {
            assert(out@ =~= ascii_lowered(chars@.take(i as int)));
        }
    }
    proof {
        assert(chars@.take(i as int) =~= s@);
    }
    out
}

/// The decimal digit for a number below ten.
pub open spec fn digit(n: nat) -> char {
    (n as u32 + 48) as char
}

/// The decimal rendering of a number.
pub open spec fn decimal_of(n: nat) -> Seq<char>
    decreases n,
{
    if n < 10 {
        seq![digit(n)]
    } else {
        decimal_of(n / 10).push(digit(n % 10))
    }
}

/// Render a number in decimal.
pub fn decimal(n: u64) -> (out: String)
    ensures
        out@ == decimal_of(n as nat),
    decreases n,
{
    let last: char = ((n % 10) as u8 + 48u8) as char;
    if n < 10 {
        let mut out: String = String::new();
        out.push(last);
        proof {
            assert(out@ =~= decimal_of(n as nat));
        }
        out
    } else {
        let mut out: String = decimal(n / 10);
        out.push(last);
        out
    }
}

/// The upper-case hexadecimal digit for a number below sixteen.
pub open spec fn hex_digit(n: u8) -> char {
    if n < 10 {
        (n as u32 + 48) as char
    } else {
        (n as u32 + 55) as char
    }
}

/// The upper-case hexadecimal digit for a number below sixteen.
pub fn hex_char(n: u8) -> (c: char)
    requires
        n < 16,
    ensures
        c == hex_digit(n),
{
    if n < 10 {
        (n + 48u8) as char
    } else {
        (n + 55u8) as char
    }
}

/// Whether every character of `s` is an ASCII one.
pub open spec fn is_ascii(s: Seq<char>) -> bool {
    forall|i: int| 0 <= i < s.len() ==> #[trigger] s[i] <= '\u{7f}'
}

/// What `str::to_lowercase` returns for text that is not all ASCII.
pub uninterp spec fn unicode_lowercase(s: Seq<char>) -> Seq<char>;

/// The lower-case equivalent of a text.
pub open spec fn lowercase(s: Seq<char>) -> Seq<char> {
    if is_ascii(s) {
        ascii_lowered(s)
    } else {
        unicode_lowercase(s)
    }
}

/// `str::to_lowercase`: the lower-case equivalent of the text, by Unicode's rules. Of
/// ASCII text the letters `A` to `Z` become `a` to `z`, and nothing else changes. Of any
/// other text the result is only named; it depends on the text alone.
#[verifier::external_body]
pub(crate) fn to_lowercase(s: &str) -> (out: String)
    ensures
        out@ == (if is_ascii(s@) {
            ascii_lowered(s@)
        } else {
            unicode_lowercase(s@)
        }),
{
    s.to_lowercase()
}

/// What `char::to_lowercase` returns for a character that is not ASCII.
pub uninterp spec fn unicode_lowercase_char(c: char) -> Seq<char>;

/// The lower-case mapping of a character.
pub open spec fn lowercase_char(c: char) -> Seq<char> {
    if c <= '\u{7f}' {
        seq![ascii_lower_char(c)]
    } else {
        unicode_lowercase_char(c)
    }
}

/// `char::to_lowercase`: the lower-case mapping of the character, as one or more
/// characters. Of an ASCII character it is one: its own lower-case form where it is one of
/// `A` to `Z`, and itself otherwise. Of any other character the result is only named; it
/// depends on the character alone.
#[verifier::external_body]
pub(crate) fn char_to_lowercase(c: char) -> (out: String)
    ensures
        out@ == (if c <= '\u{7f}' {
            seq![ascii_lower_char(c)]
        } else {
            unicode_lowercase_char(c)
        }),
        out@.len() >= 1,
{
    c.to_lowercase().to_string()
}

/// Whether quoting needs to escape nothing in `s`: it holds printable ASCII characters
/// other than the double quote and the backslash.
pub open spec fn is_plain(s: Seq<char>) -> bool {
    forall|i: int|
        0 <= i < s.len() ==> ' ' <= #[trigger] s[i] <= '~' && s[i] != '"' && s[i] != '\\'
}

/// What the `Debug` rendering returns for text in which something may be escaped.
pub uninterp spec fn escaped(s: Seq<char>) -> Seq<char>;

/// A text in double quotes, escaped.
pub open spec fn quoted(s: Seq<char>) -> Seq<char> {
    if is_plain(s) {
        seq!['"'] + s + seq!['"']
    } else {
        escaped(s)
    }
}

/// The `Debug` rendering of `str`: the text in double quotes, escaped. Of printable ASCII
/// text without a double quote or a backslash nothing is escaped, so it stands as it is
/// between the quotes. Of any other text the result is only named; it depends on the text
/// alone.
#[verifier::external_body]
pub(crate) fn quote(s: &str) -> (out: String)
    ensures
        out@ == (if is_plain(s@) {
            seq!['"'] + s@ + seq!['"']
        } else {
            escaped(s@)
        }),
{
    format!("{:?}", s)
}

/// What `String::from_utf8_lossy` returns.
pub uninterp spec fn lossy_text(bytes: Seq<u8>) -> Seq<char>;

/// `String::from_utf8_lossy`: the bytes as text, with the replacement character
/// in place of what is not UTF-8. Bytes that are UTF-8 come back as the text they
/// encode. The result depends on the bytes alone.
#[verifier::external_body]
pub(crate) fn from_utf8_lossy(bytes: &[u8]) -> (out: String)
    ensures
        out@ == lossy_text(bytes@),
        vstd::utf8::valid_utf8(bytes@) ==> vstd::utf8::encode_utf8(out@) == bytes@,
{
    String::from_utf8_lossy(bytes).into_owned()
}

/// The parts one after another, with `sep` between any two.
pub open spec fn joined(parts: Seq<Seq<char>>, sep: Seq<char>) -> Seq<char>
    decreases parts.len(),
{
    if parts.len() == 0 {
        Seq::empty()
    } else if parts.len() == 1 {
        parts[0]
    } else {
        parts[0] + sep + joined(parts.skip(1), sep)
    }
}

/// Joining can be told from the back as well as from the front.
pub proof fn lemma_joined_back(parts: Seq<Seq<char>>, sep: Seq<char>)
    requires
        parts.len() >= 2,
    ensures
        joined(parts, sep) == joined(parts.drop_last(), sep) + sep + parts.last(),
    decreases parts.len(),
{
    let rest = parts.skip(1);
    if parts.len() == 2 {
        assert(joined(rest, sep) == parts[1]);
        assert(parts.drop_last()[0] == parts[0]);
    } else {
        lemma_joined_back(rest, sep);
        assert(rest.drop_last() =~= parts.drop_last().skip(1));
        assert(parts.drop_last()[0] == parts[0]);
        assert(rest.last() == parts.last());
        assert(joined(parts, sep) =~= joined(parts.drop_last(), sep) + sep + parts.last());
    }
}

/// Splitting loses nothing: the parts, joined by the separator, are the text again, and
/// no part holds the separator.
pub proof fn law_split_joins(s: Seq<char>, sep: char)
    ensures
        split(s, sep).len() >= 1,
        joined(split(s, sep), seq![sep]) == s,
        forall|i: int| 0 <= i < split(s, sep).len() ==> !(#[trigger] split(s, sep)[i]).contains(sep),
    decreases s.len(),
{
    let parts = split(s, sep);
    if s.len() == 0 {
        assert(parts[0] =~= s);
    } else {
        let before = split(s.drop_last(), sep);
        law_split_joins(s.drop_last(), sep);
        assert(s =~= s.drop_last() + seq![s.last()]);
        if s.last() == sep {
            lemma_joined_back(parts, seq![sep]);
            assert(parts.drop_last() =~= before);
            assert(joined(parts, seq![sep]) =~= s);
        } else {
            assert(before[before.len() - 1] == before.last());
            if before.len() >= 2 {
                lemma_joined_back(before, seq![sep]);
                lemma_joined_back(parts, seq![sep]);
                assert(parts.drop_last() =~= before.drop_last());
            }
            assert(joined(parts, seq![sep]) =~= s);
            assert forall|i: int| 0 <= i < parts.len() implies !(#[trigger] parts[i]).contains(
                sep,
            ) by {
                if i < parts.len() - 1 {
                    assert(parts[i] == before[i]);
                } else if parts[i].contains(sep) {
                    let k = choose|k: int| 0 <= k < parts[i].len() && parts[i][k] == sep;
                    assert(before.last()[k] == sep);
                    assert(before.last().contains(sep));
                }
            }
        }
    }
}

/// Text without the separator lengthens the last part.
proof fn lemma_split_append(s: Seq<char>, t: Seq<char>, sep: char)
    requires
        !t.contains(sep),
    ensures
        split(s + t, sep) == split(s, sep).drop_last().push(split(s, sep).last() + t),
    decreases t.len(),
{
    lemma_split_nonempty(s, sep);
    let before = split(s, sep);
    if t.len() == 0 {
        assert(s + t =~= s);
        assert(before.last() + t =~= before.last());
        assert(before.drop_last().push(before.last()) =~= before);
    } else {
        let shorter = t.drop_last();
        assert(t[t.len() - 1] == t.last());
        assert(!shorter.contains(sep)) by {
            if shorter.contains(sep) {
                let k = choose|k: int| 0 <= k < shorter.len() && shorter[k] == sep;
                assert(t[k] == sep);
            }
        }
        lemma_split_append(s, shorter, sep);
        assert((s + t).drop_last() =~= s + shorter);
        assert((s + t).last() == t.last());
        let mid = before.drop_last().push(before.last() + shorter);
        assert(mid.drop_last() =~= before.drop_last());
        assert((before.last() + shorter).push(t.last()) =~= before.last() + t);
    }
}

/// Parts that do not hold the separator come back from splitting what they join to.
pub proof fn law_join_splits(parts: Seq<Seq<char>>, sep: char)
    requires
        parts.len() >= 1,
        forall|i: int| 0 <= i < parts.len() ==> !(#[trigger] parts[i]).contains(sep),
    ensures
        split(joined(parts, seq![sep]), sep) == parts,
    decreases parts.len(),
{
    let none = Seq::<char>::empty();
    let last = parts[parts.len() - 1];
    if parts.len() == 1 {
        lemma_split_append(none, last, sep);
        assert(none + last =~= last);
        assert(split(last, sep) =~= parts);
    } else {
        let shorter = parts.drop_last();
        assert forall|i: int| 0 <= i < shorter.len() implies !(#[trigger] shorter[i]).contains(
            sep,
        ) by {
            assert(shorter[i] == parts[i]);
        }
        law_join_splits(shorter, sep);
        lemma_joined_back(parts, seq![sep]);
        let s = joined(shorter, seq![sep]) + seq![sep];
        assert(s.drop_last() =~= joined(shorter, seq![sep]));
        assert(split(s, sep) == shorter.push(none));
        lemma_split_append(s, last, sep);
        assert(shorter.push(none).drop_last() =~= shorter);
        assert(none + last =~= last);
        assert(shorter.push(last) =~= parts);
    }
}

/// Replacing leaves a text alone in which the pattern does not stand.
pub proof fn law_replace_leaves(s: Seq<char>, pattern: Seq<char>, with: Seq<char>)
    requires
        pattern.len() > 0,
        forall|i: int|
            0 <= i <= s.len() - pattern.len() ==> #[trigger] s.subrange(i, i + pattern.len())
                != pattern,
    ensures
        replaced(s, pattern, with) == s,
    decreases s.len(),
{
    if s.len() > 0 {
        if pattern.is_prefix_of(s) {
            assert(s.subrange(0int, 0int + pattern.len()) =~= pattern);
        }
        let rest = s.skip(1);
        assert forall|i: int| 0 <= i <= rest.len() - pattern.len() implies #[trigger] rest.subrange(
            i,
            i + pattern.len(),
        ) != pattern by {
            assert(rest.subrange(i, i + pattern.len()) =~= s.subrange(
                i + 1,
                i + 1 + pattern.len(),
            ));
        }
        law_replace_leaves(rest, pattern, with);
        assert(seq![s[0]] + rest =~= s);
    }
}

/// Replacing puts the new text where the pattern first stands, leaves what comes before
/// it, and goes on with what comes behind it.
pub proof fn law_replace_first(
    a: Seq<char>,
    pattern: Seq<char>,
    b: Seq<char>,
    with: Seq<char>,
)
    requires
        pattern.len() > 0,
        forall|i: int|
            0 <= i < a.len() ==> #[trigger] (a + pattern + b).subrange(i, i + pattern.len())
                != pattern,
    ensures
        replaced(a + pattern + b, pattern, with) == a + with + replaced(b, pattern, with),
    decreases a.len(),
{
    let s = a + pattern + b;
    if a.len() == 0 {
        assert(pattern =~= s.subrange(0, pattern.len() as int));
        assert(s.skip(pattern.len() as int) =~= b);
        assert(with + replaced(b, pattern, with) =~= a + with + replaced(b, pattern, with));
    } else {
        assert(!pattern.is_prefix_of(s)) by {
            assert(s.subrange(0int, 0int + pattern.len()) != pattern);
        }
        let rest = a.skip(1);
        assert(s.skip(1) =~= rest + pattern + b);
        assert forall|i: int| 0 <= i < rest.len() implies #[trigger] (rest + pattern + b).subrange(
            i,
            i + pattern.len(),
        ) != pattern by {
            assert((rest + pattern + b).subrange(i, i + pattern.len()) =~= s.subrange(
                i + 1,
                i + 1 + pattern.len(),
            ));
        }
        law_replace_first(rest, pattern, b, with);
        assert(seq![s[0]] + (rest + with + replaced(b, pattern, with)) =~= a + with + replaced(
            b,
            pattern,
            with,
        ));
    }
}

/// Whether the parts are what lies between the occurrences of `sep` in what they join
/// to: `sep` does not begin inside a part that `sep` follows, nor stand in the last.
pub open spec fn are_between(parts: Seq<Seq<char>>, sep: Seq<char>) -> bool {
    &&& parts.len() >= 1
    &&& forall|i: int, k: int|
        0 <= i < parts.len() - 1 && 0 <= k < parts[i].len() ==> #[trigger] (parts[i]
            + sep).subrange(k, k + sep.len()) != sep
    &&& forall|k: int|
        0 <= k <= parts.last().len() - sep.len() ==> #[trigger] parts.last().subrange(
            k,
            k + sep.len(),
        ) != sep
}

/// Replacing a separator by another text: the same parts, joined by the other text,
/// however many there are.
pub proof fn law_replace_joined(parts: Seq<Seq<char>>, sep: Seq<char>, with: Seq<char>)
    requires
        sep.len() > 0,
        are_between(parts, sep),
    ensures
        replaced(joined(parts, sep), sep, with) == joined(parts, with),
    decreases parts.len(),
{
    if parts.len() == 1 {
        law_replace_leaves(parts.last(), sep, with);
    } else {
        let rest = parts.skip(1);
        let a = parts[0];
        let b = joined(rest, sep);
        assert(rest.last() == parts.last());
        assert forall|i: int, k: int|
            0 <= i < rest.len() - 1 && 0 <= k < rest[i].len() implies #[trigger] (rest[i]
            + sep).subrange(k, k + sep.len()) != sep by {
            assert(rest[i] == parts[i + 1]);
            assert((parts[i + 1] + sep).subrange(k, k + sep.len()) != sep);
        }
        law_replace_joined(rest, sep, with);
        assert forall|i: int| 0 <= i < a.len() implies #[trigger] (a + sep + b).subrange(
            i,
            i + sep.len(),
        ) != sep by {
            assert((parts[0] + sep).subrange(i, i + sep.len()) != sep);
            assert((a + sep + b).subrange(i, i + sep.len()) =~= (a + sep).subrange(
                i,
                i + sep.len(),
            ));
        }
        law_replace_first(a, sep, b, with);
    }
}

/// Replacing the empty text puts the new one at every boundary.
pub proof fn law_replace_empty(s: Seq<char>, with: Seq<char>)
    ensures
        replaced(s, Seq::empty(), with) == with + joined(
            s.map_values(|c: char| seq![c]),
            with,
        ) + (if s.len() > 0 {
            with
        } else {
            Seq::empty()
        }),
    decreases s.len(),
{
    let parts = s.map_values(|c: char| seq![c]);
    if s.len() > 0 {
        law_replace_empty(s.skip(1), with);
        assert(parts.skip(1) =~= s.skip(1).map_values(|c: char| seq![c]));
        assert(parts[0] == seq![s[0]]);
        if s.len() == 1 {
            assert(interleaved(s.skip(1), with) == with);
        }
        assert(replaced(s, Seq::empty(), with) =~= with + joined(parts, with) + with);
    } else {
        assert(replaced(s, Seq::empty(), with) =~= with + joined(parts, with) + Seq::<
            char,
        >::empty());
    }
}

/// White space is the twenty-five characters that Unicode gives the property to.
pub proof fn law_white_space(c: char)
    ensures
        is_white(c) <==> (c == '\t' || c == '\n' || c == '\u{b}' || c == '\u{c}' || c == '\r' || c
            == ' ' || c == '\u{85}' || c == '\u{a0}' || c == '\u{1680}' || c == '\u{2000}' || c
            == '\u{2001}' || c == '\u{2002}' || c == '\u{2003}' || c == '\u{2004}' || c
            == '\u{2005}' || c == '\u{2006}' || c == '\u{2007}' || c == '\u{2008}' || c
            == '\u{2009}' || c == '\u{200a}' || c == '\u{2028}' || c == '\u{2029}' || c
            == '\u{202f}' || c == '\u{205f}' || c == '\u{3000}'),
{
}

/// Trimming takes the white space at both ends and nothing else: what is left is a piece
/// of the text, only white space lies outside it, and it neither begins nor ends with
/// white space.
pub proof fn law_trimmed(s: Seq<char>)
    ensures
        exists|i: int, j: int|
            0 <= i <= j <= s.len() && trimmed(s) == #[trigger] s.subrange(i, j) && (forall|k: int|
                0 <= k < i || j <= k < s.len() ==> is_white(#[trigger] s[k])) && (i < j
                ==> !is_white(s[i]) && !is_white(s[j - 1])),
{
    let i = lemma_trimmed_start(s);
    let front = s.skip(i);
    let j = lemma_trimmed_end(front);
    assert(trimmed(s) =~= s.subrange(i, i + j));
    assert forall|k: int| 0 <= k < i || i + j <= k < s.len() implies is_white(#[trigger] s[k]) by {
        if k >= i + j {
            assert(front[k - i] == s[k]);
        }
    }
    if j > 0 {
        assert(front[0] == s[i]);
        assert(front[j - 1] == s[i + j - 1]);
    }
}

proof fn lemma_trimmed_start(s: Seq<char>) -> (i: int)
    ensures
        0 <= i <= s.len(),
        trimmed_start(s) == s.skip(i),
        forall|k: int| 0 <= k < i ==> is_white(#[trigger] s[k]),
        i < s.len() ==> !is_white(s[i]),
    decreases s.len(),
{
    if s.len() > 0 && is_white(s[0]) {
        let rest = s.skip(1);
        let i = lemma_trimmed_start(rest);
        assert(rest.skip(i) =~= s.skip(i + 1));
        assert forall|k: int| 0 <= k < i + 1 implies is_white(#[trigger] s[k]) by {
            if k > 0 {
                assert(rest[k - 1] == s[k]);
            }
        }
        if i < rest.len() {
            assert(rest[i] == s[i + 1]);
        }
        i + 1
    } else {
        assert(s.skip(0) =~= s);
        0
    }
}

proof fn lemma_trimmed_end(s: Seq<char>) -> (j: int)
    ensures
        0 <= j <= s.len(),
        trimmed_end(s) == s.take(j),
        forall|k: int| j <= k < s.len() ==> is_white(#[trigger] s[k]),
        j > 0 ==> !is_white(s[j - 1]),
    decreases s.len(),
{
    if s.len() > 0 && is_white(s.last()) {
        let rest = s.drop_last();
        let j = lemma_trimmed_end(rest);
        assert(rest.take(j) =~= s.take(j));
        assert forall|k: int| j <= k < s.len() implies is_white(#[trigger] s[k]) by {
            if k < s.len() - 1 {
                assert(rest[k] == s[k]);
            }
        }
        if j > 0 {
            assert(rest[j - 1] == s[j - 1]);
        }
        j
    } else {
        assert(s.take(s.len() as int) =~= s);
        s.len() as int
    }
}

/// Trimming the end takes the white space there and nothing else.
pub proof fn law_trimmed_end(s: Seq<char>)
    ensures
        exists|j: int|
            0 <= j <= s.len() && trimmed_end(s) == #[trigger] s.take(j) && (forall|k: int|
                j <= k < s.len() ==> is_white(#[trigger] s[k])) && (j > 0 ==> !is_white(s[j - 1])),
{
    let j = lemma_trimmed_end(s);
    assert(trimmed_end(s) == s.take(j));
}

/// Dropping a trailing run takes the whole of it and nothing else.
pub proof fn law_without_trailing(s: Seq<char>, c: char)
    ensures
        ({
            let n = without_trailing(s, c).len() as int;
            &&& n <= s.len()
            &&& without_trailing(s, c) == s.take(n)
            &&& forall|k: int| n <= k < s.len() ==> #[trigger] s[k] == c
            &&& n > 0 ==> s[n - 1] != c
        }),
    decreases s.len(),
{
    if s.len() > 0 && s.last() == c {
        let rest = s.drop_last();
        law_without_trailing(rest, c);
        let n = without_trailing(rest, c).len() as int;
        assert(rest.take(n) =~= s.take(n));
        assert forall|k: int| n <= k < s.len() implies #[trigger] s[k] == c by {
            if k < s.len() - 1 {
                assert(rest[k] == s[k]);
            }
        }
    } else {
        assert(s.take(s.len() as int) =~= s);
    }
}

/// Changing the case of ASCII letters moves the twenty-six of them by the distance
/// between the cases, and moves nothing else.
pub proof fn law_ascii_case(s: Seq<char>, i: int)
    requires
        0 <= i < s.len(),
    ensures
        ascii_lowered(s).len() == s.len(),
        ascii_uppered(s).len() == s.len(),
        ascii_lowered(s)[i] as int - s[i] as int == (if 65 <= s[i] as int <= 90 {
            32int
        } else {
            0
        }),
        s[i] as int - ascii_uppered(s)[i] as int == (if 97 <= s[i] as int <= 122 {
            32int
        } else {
            0
        }),
{
}

/// The number that a run of decimal digits spells.
pub open spec fn number_of(digits: Seq<char>) -> int
    decreases digits.len(),
{
    if digits.len() == 0 {
        0
    } else {
        10 * number_of(digits.drop_last()) + (digits.last() as int - '0' as int)
    }
}

/// A number in decimal reads back as the number, is made of digits, and has no zero in
/// front unless it is zero.
pub proof fn law_decimal_reads_back(n: nat)
    ensures
        number_of(decimal_of(n)) == n,
        decimal_of(n).len() >= 1,
        forall|i: int|
            0 <= i < decimal_of(n).len() ==> '0' <= #[trigger] decimal_of(n)[i] && decimal_of(n)[i]
                <= '9',
        decimal_of(n).len() > 1 ==> decimal_of(n)[0] != '0',
    decreases n,
{
    let s = decimal_of(n);
    if n < 10 {
        assert(s.drop_last() =~= Seq::<char>::empty());
        assert(number_of(s) == n) by {
            assert(number_of(s.drop_last()) == 0);
        }
    } else {
        law_decimal_reads_back(n / 10);
        let front = decimal_of(n / 10);
        assert(s.drop_last() =~= front);
        assert(s.last() as int == n % 10 + 48);
        assert(n == 10 * (n / 10) + n % 10);
        assert forall|i: int| 0 <= i < s.len() implies '0' <= #[trigger] s[i] && s[i] <= '9' by {
            if i < front.len() {
                assert(s[i] == front[i]);
            }
        }
        assert(s[0] == front[0]);
        if front.len() == 1 {
            assert(front.drop_last() =~= Seq::<char>::empty());
            assert(number_of(front.drop_last()) == 0);
            assert(number_of(front) == front.last() as int - 48);
        }
    }
}

/// A hexadecimal digit is one of `0` to `9` and `A` to `F` and tells its number.
pub proof fn law_hex_digit(n: u8)
    requires
        n < 16,
    ensures
        hex_digit(n) as int == (if n < 10 {
            '0' as int + n
        } else {
            'A' as int + (n - 10)
        }),
{
}

/// The words, each with its ASCII letters in lower case.
pub open spec fn lowered_words(words: Seq<Seq<char>>) -> Seq<Seq<char>> {
    words.map_values(|word: Seq<char>| ascii_lowered(word))
}

/// ASCII words joined by an ASCII separator in lower case: in lower case they are the
/// words in lower case, joined by the same separator.
pub proof fn law_lowercase_joined(words: Seq<Seq<char>>, sep: Seq<char>)
    requires
        is_ascii(sep),
        ascii_lowered(sep) == sep,
        forall|i: int| 0 <= i < words.len() ==> is_ascii(#[trigger] words[i]),
    ensures
        is_ascii(joined(words, sep)),
        lowercase(joined(words, sep)) == joined(lowered_words(words), sep),
    decreases words.len(),
{
    let lowered = lowered_words(words);
    if words.len() == 0 {
        assert(lowercase(joined(words, sep)) =~= joined(lowered, sep));
    } else if words.len() > 1 {
        let rest = words.skip(1);
        assert forall|i: int| 0 <= i < rest.len() implies is_ascii(#[trigger] rest[i]) by {
            assert(rest[i] == words[i + 1]);
        }
        law_lowercase_joined(rest, sep);
        assert(lowered_words(rest) =~= lowered.skip(1));
        let tail = joined(rest, sep);
        assert(is_ascii(words[0]));
        assert(is_ascii(words[0] + sep + tail));
        assert(ascii_lowered(words[0] + sep + tail) =~= ascii_lowered(words[0]) + ascii_lowered(sep)
            + ascii_lowered(tail));
    } else {
        assert(is_ascii(words[0]));
    }
}

} // verus!
