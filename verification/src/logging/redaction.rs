//! What masking promises of a whole line.

use vstd::prelude::*;

use crate::logging::line;
use crate::text;

verus! {

broadcast use vstd::string::group_string_axioms;

/// Whether `key` can name a field: it is not empty, and holds ASCII characters in lower
/// case other than white space, `=` and the double quote.
pub open spec fn is_name(key: Seq<char>) -> bool {
    &&& key.len() > 0
    &&& text::is_ascii(key)
    &&& text::ascii_lowered(key) == key
    &&& forall|i: int|
        0 <= i < key.len() ==> !text::is_white(#[trigger] key[i]) && key[i] != '=' && key[i]
            != '"'
}

/// Whether `v` holds neither white space nor a double quote from `from` on.
pub open spec fn is_bare(v: Seq<char>, from: int) -> bool {
    forall|i: int| from <= i < v.len() ==> !text::is_white(#[trigger] v[i]) && v[i] != '"'
}

/// Whether a word can follow `a`: it is empty or ends in white space.
pub open spec fn is_before_word(a: Seq<char>) -> bool {
    a.len() == 0 || text::is_white(a.last())
}

/// Whether `b` can follow a word: it is empty or begins with white space.
pub open spec fn is_behind_word(b: Seq<char>) -> bool {
    b.len() == 0 || text::is_white(b[0])
}

/// The line with the field `name=v` between `a` and `b`.
pub open spec fn with_value(
    a: Seq<char>,
    name: Seq<char>,
    v: Seq<char>,
    b: Seq<char>,
) -> Seq<char> {
    a + name + seq!['='] + v + b
}

/// Whether something stands in a text does not depend on what follows it.
proof fn lemma_is_at_front(s: Seq<char>, t: Seq<char>, at: int, pattern: Seq<char>)
    requires
        at + pattern.len() <= s.len(),
    ensures
        text::is_at(s + t, at, pattern) == text::is_at(s, at, pattern),
{
    if 0 <= at {
        assert((s + t).subrange(at, at + pattern.len()) =~= s.subrange(at, at + pattern.len()));
    }
}

/// What stands in a text holds the characters of the text.
proof fn lemma_is_at_char(s: Seq<char>, at: int, pattern: Seq<char>, i: int)
    requires
        text::is_at(s, at, pattern),
        at <= i < at + pattern.len(),
    ensures
        pattern[i - at] == s[i],
{
    assert(s.subrange(at, at + pattern.len())[i - at] == s[i]);
}

/// The search in the rest of a text is the search in the text from there on.
proof fn lemma_first_at_skip(s: Seq<char>, pattern: Seq<char>, from: int, t: int)
    requires
        0 <= from <= s.len(),
        0 <= t,
    ensures
        line::first_at(s, pattern, from + t) < 0 ==> line::first_at(s.skip(from), pattern, t) == -1,
        line::first_at(s, pattern, from + t) >= 0 ==> line::first_at(s.skip(from), pattern, t)
            == line::first_at(s, pattern, from + t) - from,
    decreases s.len() - from - t,
{
    let rest = s.skip(from);
    assert(text::is_at(rest, t, pattern) == text::is_at(s, from + t, pattern)) by {
        if from + t + pattern.len() <= s.len() {
            assert(rest.subrange(t, t + pattern.len()) =~= s.subrange(
                from + t,
                from + t + pattern.len(),
            ));
        }
    }
    if !text::is_at(rest, t, pattern) && t < rest.len() {
        lemma_first_at_skip(s, pattern, from, t + 1);
    }
}

/// The search passes over places where nothing stands.
proof fn lemma_first_at_from(s: Seq<char>, pattern: Seq<char>, from: int, m: int)
    requires
        0 <= from <= m <= s.len(),
        forall|i: int| from <= i < m ==> !#[trigger] text::is_at(s, i, pattern),
    ensures
        line::first_at(s, pattern, from) == line::first_at(s, pattern, m),
    decreases m - from,
{
    if from < m {
        assert(!text::is_at(s, from, pattern));
        lemma_first_at_from(s, pattern, from + 1, m);
    }
}

/// What is found first in a text is found first whatever follows it.
proof fn lemma_first_in_front(s: Seq<char>, t: Seq<char>, pattern: Seq<char>, from: int)
    requires
        0 <= from,
        line::first_at(s, pattern, from) >= 0,
    ensures
        line::first_at(s + t, pattern, from) == line::first_at(s, pattern, from),
{
    let q = line::first_at(s, pattern, from);
    line::lemma_first_at_holds(s, pattern, from);
    lemma_is_at_front(s, t, q, pattern);
    line::lemma_first_at(s + t, pattern, from, q);
    let p = line::first_at(s + t, pattern, from);
    line::lemma_first_at_holds(s + t, pattern, from);
    lemma_is_at_front(s, t, p, pattern);
    line::lemma_first_at(s, pattern, from, p);
}

/// A part of ASCII text is ASCII.
proof fn lemma_ascii_parts(s: Seq<char>, from: int)
    requires
        text::is_ascii(s),
        0 <= from <= s.len(),
    ensures
        text::is_ascii(s.skip(from)),
        text::is_ascii(s.take(from)),
{
    assert forall|i: int| 0 <= i < s.len() - from implies #[trigger] s.skip(from)[i]
        <= '\u{7f}' by {
        assert(s.skip(from)[i] == s[i + from]);
    }
    assert forall|i: int| 0 <= i < from implies #[trigger] s.take(from)[i] <= '\u{7f}' by {
        assert(s.take(from)[i] == s[i]);
    }
}

/// ASCII text followed by ASCII text is ASCII.
proof fn lemma_ascii_joined(s: Seq<char>, t: Seq<char>)
    requires
        text::is_ascii(s),
        text::is_ascii(t),
    ensures
        text::is_ascii(s + t),
{
    assert forall|i: int| 0 <= i < (s + t).len() implies #[trigger] (s + t)[i] <= '\u{7f}' by {
        if i < s.len() {
            assert((s + t)[i] == s[i]);
        } else {
            assert((s + t)[i] == t[i - s.len()]);
        }
    }
}

/// One step of masking an ASCII line, by the place in the line at which the key stands.
proof fn lemma_unfold(l: Seq<char>, key: Seq<char>, from: int)
    requires
        text::is_ascii(l),
        0 <= from < l.len(),
        key.len() > 0,
    ensures
        ({
            let p = line::first_at(text::ascii_lowered(l), key, from);
            let after = p + key.len();
            if p < 0 {
                line::masked_from(l, key, from) == l
            } else {
                &&& from <= p
                &&& after <= l.len()
                &&& text::is_at(text::ascii_lowered(l), p, key)
                &&& line::masked_from(l, key, from) == if after < l.len() && l[after] == '=' {
                    line::masked_from(line::replaced_value(l, after + 1), key, after + 11)
                } else {
                    line::masked_from(l, key, after)
                }
            }
        }),
{
    let low = text::ascii_lowered(l);
    let rest = l.skip(from);
    lemma_ascii_parts(l, from);
    assert(text::lowercase(rest) =~= low.skip(from));
    lemma_first_at_skip(low, key, from, 0);
    let p = line::first_at(low, key, from);
    if p >= 0 {
        line::lemma_first_at_holds(low, key, from);
        assert(low.len() == l.len());
        line::lemma_covering_ascii(rest, p - from + key.len());
        line::lemma_redacted();
    }
}

/// Masking passes over places where the key does not stand.
proof fn lemma_skip_ahead(l: Seq<char>, key: Seq<char>, from: int, m: int)
    requires
        text::is_ascii(l),
        0 <= from <= m <= l.len(),
        key.len() > 0,
        forall|i: int|
            from <= i < m ==> !#[trigger] text::is_at(text::ascii_lowered(l), i, key),
    ensures
        line::masked_from(l, key, from) == line::masked_from(l, key, m),
{
    let low = text::ascii_lowered(l);
    if from < m {
        lemma_first_at_from(low, key, from, m);
        lemma_unfold(l, key, from);
        if m < l.len() {
            lemma_unfold(l, key, m);
        } else {
            assert(line::first_at(low, key, m) == -1);
        }
    }
}

/// The search for a character behind a front.
proof fn lemma_char_shift(x: Seq<char>, b: Seq<char>, c: char, t: int)
    requires
        0 <= t <= b.len(),
    ensures
        line::char_from(x + b, c, x.len() + t) == x.len() + line::char_from(b, c, t),
    decreases b.len() - t,
{
    if t < b.len() && b[t] != c {
        lemma_char_shift(x, b, c, t + 1);
    }
}

/// The search for white space behind a front.
proof fn lemma_white_shift(x: Seq<char>, b: Seq<char>, t: int)
    requires
        0 <= t <= b.len(),
    ensures
        line::white_from(x + b, x.len() + t) == x.len() + line::white_from(b, t),
    decreases b.len() - t,
{
    if t < b.len() && !text::is_white(b[t]) {
        lemma_white_shift(x, b, t + 1);
    }
}

/// The search for a character through two texts.
proof fn lemma_char_joined(s: Seq<char>, t: Seq<char>, c: char, from: int)
    requires
        0 <= from <= s.len(),
    ensures
        line::char_from(s + t, c, from) == if line::char_from(s, c, from) < s.len() {
            line::char_from(s, c, from)
        } else {
            s.len() + line::char_from(t, c, 0)
        },
    decreases s.len() - from,
{
    if from < s.len() {
        if s[from] != c {
            lemma_char_joined(s, t, c, from + 1);
        }
    } else {
        lemma_char_shift(s, t, c, 0);
    }
}

/// The search for white space through two texts.
proof fn lemma_white_joined(s: Seq<char>, t: Seq<char>, from: int)
    requires
        0 <= from <= s.len(),
    ensures
        line::white_from(s + t, from) == if line::white_from(s, from) < s.len() {
            line::white_from(s, from)
        } else {
            s.len() + line::white_from(t, 0)
        },
    decreases s.len() - from,
{
    if from < s.len() {
        if !text::is_white(s[from]) {
            lemma_white_joined(s, t, from + 1);
        }
    } else {
        lemma_white_shift(s, t, 0);
    }
}

/// A bare end of a text holds neither white space nor a quote to be found.
proof fn lemma_bare_end(s: Seq<char>, from: int)
    requires
        0 <= from <= s.len(),
        is_bare(s, from),
    ensures
        line::white_from(s, from) == s.len(),
        line::char_from(s, '"', from) == s.len(),
    decreases s.len() - from,
{
    if from < s.len() {
        lemma_bare_end(s, from + 1);
    }
}

/// Where a text ends in white space, some is found in it.
proof fn lemma_white_found(s: Seq<char>, from: int)
    requires
        0 <= from < s.len(),
        text::is_white(s.last()),
    ensures
        from <= line::white_from(s, from) < s.len(),
    decreases s.len() - from,
{
    if !text::is_white(s[from]) {
        lemma_white_found(s, from + 1);
    }
}

/// Where a character is found, it stands.
proof fn lemma_char_found(s: Seq<char>, c: char, from: int)
    requires
        0 <= from,
        line::char_from(s, c, from) < s.len(),
    ensures
        from <= line::char_from(s, c, from),
        s[line::char_from(s, c, from)] == c,
    decreases s.len() - from,
{
    if from < s.len() && s[from] != c {
        lemma_char_found(s, c, from + 1);
    }
}

/// A front that is done with does not matter to what follows it.
proof fn lemma_shift(x: Seq<char>, b: Seq<char>, key: Seq<char>, t: int)
    requires
        0 <= t,
        key.len() > 0,
    ensures
        line::masked_from(x + b, key, x.len() + t) == x + line::masked_from(b, key, t),
    decreases b.len() - t,
{
    let n = x.len() as int;
    if t < b.len() {
        let rest = b.skip(t);
        assert((x + b).skip(n + t) =~= rest);
        let found = line::first_at(text::lowercase(rest), key, 0);
        if found >= 0 {
            line::lemma_covering(rest, found + key.len());
            let after = t + line::covering(rest, found + key.len());
            if after < b.len() && b[after] == '=' {
                let start = after + 1;
                line::lemma_value_end(b, start);
                lemma_char_shift(x, b, '"', if start < b.len() {
                    start + 1
                } else {
                    start
                });
                lemma_white_shift(x, b, start);
                assert(line::value_end(x + b, n + start) == n + line::value_end(b, start));
                let changed = b.take(start) + "[redacted]"@ + b.skip(line::value_end(b, start));
                assert((x + b).take(n + start) + "[redacted]"@ + (x + b).skip(
                    n + line::value_end(b, start),
                ) =~= x + changed);
                lemma_shift(x, changed, key, start + "[redacted]"@.len());
            } else {
                lemma_shift(x, b, key, after);
            }
        }
    }
}

/// Masking leaves ASCII text ASCII.
proof fn lemma_masked_is_ascii(l: Seq<char>, key: Seq<char>, from: int)
    requires
        text::is_ascii(l),
        0 <= from,
        key.len() > 0,
    ensures
        text::is_ascii(line::masked_from(l, key, from)),
    decreases l.len() - from,
{
    if from < l.len() {
        lemma_unfold(l, key, from);
        let p = line::first_at(text::ascii_lowered(l), key, from);
        let after = p + key.len();
        if p >= 0 {
            if after < l.len() && l[after] == '=' {
                line::lemma_redacted();
                line::lemma_value_end(l, after + 1);
                line::lemma_replaced_is_ascii(l, after + 1);
                lemma_masked_is_ascii(line::replaced_value(l, after + 1), key, after + 11);
            } else {
                lemma_masked_is_ascii(l, key, after);
            }
        }
    }
}

/// Masking a bare word is masking it without what follows, and leaves it bare.
proof fn lemma_word(x: Seq<char>, b: Seq<char>, key: Seq<char>, from: int)
    requires
        text::is_ascii(x),
        text::is_ascii(b),
        is_name(key),
        is_bare(x, from),
        is_behind_word(b),
        0 <= from <= x.len(),
    ensures
        line::masked_from(x + b, key, from) == line::masked_from(x, key, from)
            + line::masked_from(b, key, 0),
        is_bare(line::masked_from(x, key, from), from),
    decreases x.len() - from,
{
    let l = x + b;
    let n = key.len() as int;
    let low = text::ascii_lowered(l);
    let low_x = text::ascii_lowered(x);
    lemma_ascii_joined(x, b);
    assert(low =~= low_x + text::ascii_lowered(b));
    assert(line::masked_from(x, key, x.len() as int) == x);
    lemma_shift(x, b, key, 0);
    if from < x.len() {
        lemma_unfold(x, key, from);
        lemma_unfold(l, key, from);
        let q = line::first_at(low_x, key, from);
        if q >= 0 {
            lemma_first_in_front(low_x, text::ascii_lowered(b), key, from);
            let after = q + n;
            if after < x.len() && x[after] == '=' {
                let start = after + 1;
                lemma_bare_end(x, start);
                assert(line::value_end(x, start) == x.len());
                lemma_white_joined(x, b, start);
                assert(line::value_end(l, start) == x.len());
                line::lemma_redacted();
                let changed = line::replaced_value(x, start);
                assert(changed =~= x.take(start) + "[redacted]"@);
                assert(line::replaced_value(l, start) =~= changed + b);
                lemma_shift(changed, b, key, 0);
                assert(line::masked_from(changed, key, changed.len() as int) == changed);
                assert forall|i: int| from <= i < changed.len() implies !text::is_white(
                    #[trigger] changed[i],
                ) && changed[i] != '"' by {
                    if i < start {
                        assert(changed[i] == x[i]);
                    } else {
                        assert(changed[i] == "[redacted]"@[i - start]);
                    }
                }
            } else if after < x.len() {
                lemma_word(x, b, key, after);
                line::law_masked_keeps_front(x, key, after);
                let out = line::masked_from(x, key, after);
                assert forall|i: int| from <= i < out.len() implies !text::is_white(
                    #[trigger] out[i],
                ) && out[i] != '"' by {
                    if i < after {
                        assert(out.take(after)[i] == out[i]);
                        assert(x.take(after)[i] == x[i]);
                    }
                }
            }
        } else {
            assert forall|i: int| from <= i < x.len() implies !#[trigger] text::is_at(low, i, key) by {
                if text::is_at(low, i, key) {
                    if i + n <= x.len() {
                        lemma_is_at_front(low_x, text::ascii_lowered(b), i, key);
                        line::lemma_first_at(low_x, key, from, i);
                    } else {
                        lemma_is_at_char(low, i, key, x.len() as int);
                        assert(low[x.len() as int] == text::ascii_lower_char(b[0]));
                        assert(text::is_white(key[x.len() - i]));
                    }
                }
            }
            lemma_skip_ahead(l, key, from, x.len() as int);
        }
    }
}

/// Whether `v` is a quoted value: a double quote, what it encloses, and a double quote
/// that closes it.
pub open spec fn is_enclosed(v: Seq<char>) -> bool {
    &&& v.len() >= 2
    &&& v[0] == '"'
    &&& v.last() == '"'
    &&& forall|i: int| 0 < i < v.len() - 1 ==> #[trigger] v[i] != '"'
}

/// How many double quotes stand in `a` before `to`.
pub open spec fn quotes(a: Seq<char>, to: int) -> int
    decreases to,
{
    if to <= 0 {
        0
    } else {
        quotes(a, to - 1) + if a[to - 1] == '"' {
            1int
        } else {
            0
        }
    }
}

/// Whether the value that begins in `a` at `start` is closed there: a quoted one begins
/// with a quote that opens and ends with one before white space, and any other one holds
/// no quote.
pub open spec fn is_closed_value(a: Seq<char>, start: int) -> bool {
    if start < a.len() && a[start] == '"' {
        let close = line::char_from(a, '"', start + 1);
        &&& quotes(a, start) % 2 == 0
        &&& close + 1 < a.len()
        &&& text::is_white(a[close + 1])
    } else {
        forall|j: int| start <= j < line::white_from(a, start) ==> #[trigger] a[j] != '"'
    }
}

/// Whether the value of every field of the keys up to `p` is closed in `a`, and the keys
/// are without `]`, with which the text put in place of a value ends.
pub open spec fn is_closed(a: Seq<char>, keys: Seq<Seq<char>>, p: int) -> bool {
    &&& forall|i: int, at: int|
        0 <= i <= p && #[trigger] line::shows(a, keys[i], at) ==> is_closed_value(
            a,
            at + keys[i].len() + 1,
        )
    &&& forall|i: int| 0 <= i <= p ==> !(#[trigger] keys[i]).contains(']')
}

/// Whether no `key=` of the keys before `p` stands in `v`, in whatever case.
pub open spec fn holds_no_field(v: Seq<char>, keys: Seq<Seq<char>>, p: int) -> bool {
    forall|i: int, at: int| 0 <= i < p ==> !#[trigger] line::shows(v, keys[i], at)
}

/// Whether masking the keys up to `p`, one after another, leaves `v` to be found as a
/// value behind `a`: it is bare, or it is quoted, holds no field of an earlier key itself,
/// and every configured value before it is closed.
pub open spec fn is_value(a: Seq<char>, v: Seq<char>, keys: Seq<Seq<char>>, p: int) -> bool {
    ||| is_bare(v, 0)
    ||| is_closed(a, keys, p) && is_enclosed(v) && holds_no_field(v, keys, p)
}

/// Whether the field `name=v` between `a` and `b` is one that masking finds: everything is
/// ASCII, the field is a word of its own, and its value is found.
pub open spec fn is_field(
    a: Seq<char>,
    name: Seq<char>,
    v: Seq<char>,
    b: Seq<char>,
    keys: Seq<Seq<char>>,
    p: int,
) -> bool {
    &&& text::is_ascii(a)
    &&& text::is_ascii(name)
    &&& text::is_ascii(v)
    &&& text::is_ascii(b)
    &&& is_name(text::ascii_lowered(name))
    &&& is_before_word(a)
    &&& is_behind_word(b)
    &&& is_value(a, v, keys, p)
}

/// Whether two lines are the same but for the value of one field.
spec fn is_pair(
    l1: Seq<char>,
    l2: Seq<char>,
    a: Seq<char>,
    name: Seq<char>,
    v1: Seq<char>,
    v2: Seq<char>,
    b: Seq<char>,
    keys: Seq<Seq<char>>,
    p: int,
) -> bool {
    &&& is_field(a, name, v1, b, keys, p)
    &&& is_field(a, name, v2, b, keys, p)
    &&& l1 == with_value(a, name, v1, b)
    &&& l2 == with_value(a, name, v2, b)
}

/// Whether two lines are the same, or the same but for the value of one field of the name.
spec fn is_alike(
    l1: Seq<char>,
    l2: Seq<char>,
    name: Seq<char>,
    keys: Seq<Seq<char>>,
    p: int,
) -> bool {
    l1 == l2 || exists|a: Seq<char>, v1: Seq<char>, v2: Seq<char>, b: Seq<char>|
        #[trigger] is_pair(l1, l2, a, name, v1, v2, b, keys, p)
}

/// A line with a field is ASCII, and begins with what lies before the value.
proof fn lemma_field(
    a: Seq<char>,
    name: Seq<char>,
    v: Seq<char>,
    b: Seq<char>,
    keys: Seq<Seq<char>>,
    p: int,
)
    requires
        is_field(a, name, v, b, keys, p),
    ensures
        text::is_ascii(with_value(a, name, v, b)),
        text::is_ascii(a + name + seq!['=']),
        text::ascii_lowered(with_value(a, name, v, b)) == text::ascii_lowered(
            a + name + seq!['='],
        ) + text::ascii_lowered(v + b),
        with_value(a, name, v, b) == a + name + seq!['='] + (v + b),
        with_value(a, name, v, b) == a + (name + seq!['='] + v + b),
        is_bare(v, 0) ==> is_bare(name + seq!['='] + v, 0),
        forall|i: int|
            0 <= i < name.len() ==> !text::is_white(#[trigger] name[i]) && name[i] != '=' && name[i]
                != '"',
        name.len() > 0,
{
    let front = a + name + seq!['='];
    let l = with_value(a, name, v, b);
    assert(text::is_ascii(seq!['=']));
    lemma_ascii_joined(a, name);
    lemma_ascii_joined(a + name, seq!['=']);
    lemma_ascii_joined(front, v);
    lemma_ascii_joined(front + v, b);
    assert(l =~= front + (v + b));
    assert(l =~= a + (name + seq!['='] + v + b));
    assert(text::ascii_lowered(l) =~= text::ascii_lowered(front) + text::ascii_lowered(v + b));
    let lowered = text::ascii_lowered(name);
    assert(lowered.len() == name.len());
    assert forall|i: int| 0 <= i < name.len() implies !text::is_white(#[trigger] name[i]) && name[i]
        != '=' && name[i] != '"' by {
        assert(lowered[i] == text::ascii_lower_char(name[i]));
        assert(!text::is_white(lowered[i]) && lowered[i] != '=' && lowered[i] != '"');
    }
    let middle = name + seq!['='] + v;
    assert forall|i: int| is_bare(v, 0) && 0 <= i < middle.len() implies !text::is_white(
        #[trigger] middle[i],
    ) && middle[i] != '"' by {
        if i < name.len() {
            assert(middle[i] == name[i]);
        } else if i == name.len() {
            assert(middle[i] == '=');
        } else {
            assert(middle[i] == v[i - name.len() - 1]);
        }
    }
}

/// The quote that closes a quoted value is the next one.
proof fn lemma_closing_quote(v: Seq<char>, from: int)
    requires
        is_enclosed(v),
        0 < from < v.len(),
    ensures
        line::char_from(v, '"', from) == v.len() - 1,
    decreases v.len() - from,
{
    if from < v.len() - 1 {
        lemma_closing_quote(v, from + 1);
    }
}

/// Masking passes over a text in which the key is never followed by `=`, and which ends in
/// a double quote.
proof fn lemma_passed_over(x: Seq<char>, b: Seq<char>, key: Seq<char>, from: int)
    requires
        text::is_ascii(x),
        text::is_ascii(b),
        is_name(key),
        0 <= from <= x.len(),
        x.len() > 0,
        x.last() == '"',
        forall|at: int| from <= at ==> !#[trigger] line::shows(x, key, at),
    ensures
        line::masked_from(x + b, key, from) == x + line::masked_from(b, key, 0),
    decreases x.len() - from,
{
    let l = x + b;
    let n = key.len() as int;
    let low = text::ascii_lowered(l);
    let low_x = text::ascii_lowered(x);
    let last = x.len() - 1;
    lemma_ascii_joined(x, b);
    assert(low =~= low_x + text::ascii_lowered(b));
    lemma_shift(x, b, key, 0);
    assert forall|i: int| from <= i < x.len() && #[trigger] text::is_at(low, i, key) implies i + n
        <= last && text::is_at(low_x, i, key) by {
        if i + n > last {
            lemma_is_at_char(low, i, key, last);
            assert(low[last] == text::ascii_lower_char(x[last]));
            assert(key[last - i] == '"');
        }
        lemma_is_at_front(low_x, text::ascii_lowered(b), i, key);
    }
    if from < x.len() {
        lemma_unfold(l, key, from);
        let p = line::first_at(low, key, from);
        if 0 <= p < x.len() {
            let after = p + n;
            assert(text::is_at(low_x, p, key));
            assert(l[after] == x[after]);
            assert(!line::shows(x, key, p));
            lemma_passed_over(x, b, key, after);
        } else {
            assert forall|i: int| from <= i < x.len() implies !#[trigger] text::is_at(
                low,
                i,
                key,
            ) by {
                if text::is_at(low, i, key) {
                    line::lemma_first_at(low, key, from, i);
                }
            }
            lemma_skip_ahead(l, key, from, x.len() as int);
        }
    }
}

/// Replacing a value, bare or quoted, replaces all of it and nothing else.
proof fn lemma_value_replaced(front: Seq<char>, v: Seq<char>, b: Seq<char>)
    requires
        is_bare(v, 0) || is_enclosed(v),
        is_behind_word(b),
    ensures
        line::replaced_value(front + (v + b), front.len() as int) == front + "[redacted]"@ + b,
{
    let l = front + (v + b);
    let x = front + v;
    let n = front.len() as int;
    assert(l =~= x + b);
    if is_bare(v, 0) {
        assert forall|i: int| n <= i < x.len() implies !text::is_white(#[trigger] x[i]) && x[i]
            != '"' by {
            assert(x[i] == v[i - n]);
        }
        lemma_bare_end(x, n);
        lemma_white_joined(x, b, n);
        assert(line::value_end(l, n) == x.len()) by {
            if n < l.len() {
                if v.len() > 0 {
                    assert(l[n] == v[0]);
                } else {
                    assert(l[n] == b[0]);
                }
            }
        }
    } else {
        assert(l[n] == v[0]);
        lemma_char_shift(front, v + b, '"', 1);
        lemma_char_joined(v, b, '"', 1);
        lemma_closing_quote(v, 1);
        assert(line::value_end(l, n) == x.len());
    }
    assert(line::replaced_value(l, n) =~= front + "[redacted]"@ + b);
}

/// Masking leaves white space at the beginning of a text where it is.
proof fn lemma_behind_kept(b: Seq<char>, key: Seq<char>)
    requires
        text::is_ascii(b),
        is_name(key),
        is_behind_word(b),
    ensures
        is_behind_word(line::masked_from(b, key, 0)),
{
    if b.len() > 0 {
        let low = text::ascii_lowered(b);
        assert forall|i: int| 0 <= i < 1 implies !#[trigger] text::is_at(low, i, key) by {
            if text::is_at(low, i, key) {
                lemma_is_at_char(low, 0, key, 0);
                assert(low[0] == text::ascii_lower_char(b[0]));
                assert(text::is_white(key[0]));
            }
        }
        lemma_skip_ahead(b, key, 0, 1);
        line::law_masked_keeps_front(b, key, 1);
        let out = line::masked_from(b, key, 1);
        assert(out.take(1)[0] == out[0]);
        assert(b.take(1)[0] == b[0]);
    }
}

/// Masking a key that does not stand before a value masks the value and what follows it
/// apart.
proof fn lemma_value_word(
    a: Seq<char>,
    name: Seq<char>,
    v: Seq<char>,
    b: Seq<char>,
    keys: Seq<Seq<char>>,
    p: int,
    which: int,
    from: int,
)
    requires
        is_field(a, name, v, b, keys, p),
        0 <= which < p < keys.len(),
        is_name(keys[which]),
        0 <= from <= a.len() + name.len(),
        line::first_at(text::ascii_lowered(a + name + seq!['=']), keys[which], from) < 0,
    ensures
        ({
            let key = keys[which];
            let front = a + name + seq!['='];
            let w = line::masked_from(front + v, key, front.len() as int).skip(front.len() as int);
            let rest = line::masked_from(b, key, 0);
            &&& line::masked_from(with_value(a, name, v, b), key, from) == with_value(
                a,
                name,
                w,
                rest,
            )
            &&& is_field(a, name, w, rest, keys, p)
        }),
{
    lemma_field(a, name, v, b, keys, p);
    let key = keys[which];
    let front = a + name + seq!['='];
    let l = with_value(a, name, v, b);
    let low = text::ascii_lowered(l);
    let low_front = text::ascii_lowered(front);
    let n = key.len() as int;
    let m = front.len() as int;
    assert forall|i: int| from <= i < m implies !#[trigger] text::is_at(low, i, key) by {
        if text::is_at(low, i, key) {
            if i + n <= m {
                lemma_is_at_front(low_front, text::ascii_lowered(v + b), i, key);
                line::lemma_first_at(low_front, key, from, i);
            } else {
                lemma_is_at_char(low, i, key, m - 1);
                assert(low[m - 1] == text::ascii_lower_char(l[m - 1]));
                assert(l[m - 1] == '=');
                assert(key[m - 1 - i] == '=');
            }
        }
    }
    lemma_skip_ahead(l, key, from, m);
    let x = front + v;
    lemma_ascii_joined(front, v);
    assert(l =~= x + b);
    let y = line::masked_from(x, key, m);
    let w = y.skip(m);
    let rest = line::masked_from(b, key, 0);
    lemma_masked_is_ascii(b, key, 0);
    lemma_behind_kept(b, key);
    if is_bare(v, 0) {
        assert forall|i: int| m <= i < x.len() implies !text::is_white(#[trigger] x[i]) && x[i]
            != '"' by {
            assert(x[i] == v[i - m]);
        }
        lemma_word(x, b, key, m);
        line::law_masked_keeps_front(x, key, m);
        assert(x.take(m) =~= front);
        assert(y =~= front + w);
        lemma_masked_is_ascii(x, key, m);
        lemma_ascii_parts(y, m);
        assert forall|i: int| 0 <= i < w.len() implies !text::is_white(#[trigger] w[i]) && w[i]
            != '"' by {
            assert(w[i] == y[i + m]);
        }
    } else {
        assert forall|at: int| m <= at implies !#[trigger] line::shows(x, key, at) by {
            if line::shows(x, key, at) {
                assert(x.skip(m) =~= v.skip(0));
                line::lemma_same_back(x, m, v, 0, key, at);
                assert(x[at + n] == v[at + n - m]);
                assert(line::shows(v, key, at - m));
            }
        }
        lemma_passed_over(x, b, key, m);
        lemma_passed_over(x, Seq::empty(), key, m);
        assert(x + Seq::<char>::empty() =~= x);
        assert(line::masked_from(Seq::<char>::empty(), key, 0) =~= Seq::<char>::empty());
        assert(y =~= x);
        assert(w =~= v);
    }
    assert(y + rest =~= with_value(a, name, w, rest));
}

/// The first white space is the first place that holds any.
proof fn lemma_white_is(l: Seq<char>, from: int, t: int)
    requires
        0 <= from <= t <= l.len(),
        forall|i: int| from <= i < t ==> !text::is_white(#[trigger] l[i]),
        t < l.len() ==> text::is_white(l[t]),
    ensures
        line::white_from(l, from) == t,
    decreases t - from,
{
    if from < t {
        lemma_white_is(l, from + 1, t);
    }
}

/// Before the first white space there is none.
proof fn lemma_white_before(l: Seq<char>, from: int)
    requires
        0 <= from <= l.len(),
    ensures
        from <= line::white_from(l, from) <= l.len(),
        forall|i: int| from <= i < line::white_from(l, from) ==> !text::is_white(#[trigger] l[i]),
        line::white_from(l, from) < l.len() ==> text::is_white(l[line::white_from(l, from)]),
    decreases l.len() - from,
{
    if from < l.len() && !text::is_white(l[from]) {
        lemma_white_before(l, from + 1);
    }
}

/// The first place of a character is the first that holds it.
proof fn lemma_char_is(l: Seq<char>, c: char, from: int, t: int)
    requires
        0 <= from <= t <= l.len(),
        forall|i: int| from <= i < t ==> #[trigger] l[i] != c,
        t < l.len() ==> l[t] == c,
    ensures
        line::char_from(l, c, from) == t,
    decreases t - from,
{
    if from < t {
        lemma_char_is(l, c, from + 1, t);
    }
}

/// Before the first place of a character it does not stand.
proof fn lemma_char_before(l: Seq<char>, c: char, from: int)
    requires
        0 <= from <= l.len(),
    ensures
        from <= line::char_from(l, c, from) <= l.len(),
        forall|i: int| from <= i < line::char_from(l, c, from) ==> #[trigger] l[i] != c,
        line::char_from(l, c, from) < l.len() ==> l[line::char_from(l, c, from)] == c,
    decreases l.len() - from,
{
    if from < l.len() && l[from] != c {
        lemma_char_before(l, c, from + 1);
    }
}

/// A stretch without a quote adds none.
proof fn lemma_quotes_none(a: Seq<char>, from: int, to: int)
    requires
        0 <= from <= to <= a.len(),
        forall|i: int| from <= i < to ==> #[trigger] a[i] != '"',
    ensures
        quotes(a, to) == quotes(a, from),
    decreases to - from,
{
    if from < to {
        lemma_quotes_none(a, from, to - 1);
    }
}

/// The quotes before a place do not depend on what follows it.
proof fn lemma_quotes_front(a: Seq<char>, b: Seq<char>, to: int)
    requires
        0 <= to <= a.len(),
        to <= b.len(),
        forall|i: int| 0 <= i < to ==> #[trigger] a[i] == b[i],
    ensures
        quotes(a, to) == quotes(b, to),
    decreases to,
{
    if to > 0 {
        lemma_quotes_front(a, b, to - 1);
    }
}

/// The quotes in two texts are those of both.
proof fn lemma_quotes_joined(x: Seq<char>, b: Seq<char>, t: int)
    requires
        0 <= t <= b.len(),
    ensures
        quotes(x + b, x.len() + t) == quotes(x, x.len() as int) + quotes(b, t),
    decreases t,
{
    if t > 0 {
        lemma_quotes_joined(x, b, t - 1);
    } else {
        lemma_quotes_front(x + b, x, x.len() as int);
    }
}

/// Where a closed value of `a` ends.
spec fn closed_end(a: Seq<char>, start: int) -> int {
    if a[start] == '"' {
        line::char_from(a, '"', start + 1) + 1
    } else {
        line::white_from(a, start)
    }
}

/// A closed value ends before white space, and takes quotes with it in pairs.
proof fn lemma_closed_end(a: Seq<char>, start: int)
    requires
        0 <= start < a.len(),
        text::is_white(a.last()),
        is_closed_value(a, start),
    ensures
        start <= closed_end(a, start) < a.len(),
        text::is_white(a[closed_end(a, start)]),
        quotes(a, closed_end(a, start)) == quotes(a, start) + if a[start] == '"' {
            2int
        } else {
            0
        },
{
    lemma_white_found(a, start);
    lemma_white_before(a, start);
    if a[start] == '"' {
        let close = line::char_from(a, '"', start + 1);
        lemma_char_before(a, '"', start + 1);
        lemma_quotes_none(a, start + 1, close);
        assert(quotes(a, start + 1) == quotes(a, start) + 1);
        assert(quotes(a, close + 1) == quotes(a, close) + 1);
    } else {
        lemma_quotes_none(a, start, line::white_from(a, start));
    }
}

/// A closed value that begins before a replaced one is closed still.
proof fn lemma_closed_front(a: Seq<char>, start: int, s: int)
    requires
        0 <= s <= start < a.len(),
        0 < start,
        a[start - 1] == '=',
        text::is_white(a.last()),
        is_closed_value(a, start),
        is_closed_value(a, s),
    ensures
        is_closed_value(a.take(start) + "[redacted]"@ + a.skip(closed_end(a, start)), s),
{
    line::lemma_redacted();
    lemma_closed_end(a, start);
    let end = closed_end(a, start);
    let out = a.take(start) + "[redacted]"@ + a.skip(end);
    assert forall|i: int| 0 <= i < start implies #[trigger] out[i] == a[i] by {}
    assert forall|i: int| start <= i < start + 10 implies !text::is_white(#[trigger] out[i])
        && out[i] != '"' by {
        assert(out[i] == "[redacted]"@[i - start]);
    }
    assert forall|i: int| start + 10 <= i < out.len() implies #[trigger] out[i] == a[i - (start
        + 10) + end] by {}
    assert(out[start + 10] == a[end]);
    lemma_white_before(a, start);
    if s == start {
        lemma_white_is(out, s, start + 10);
    } else if a[s] == '"' {
        lemma_quotes_front(out, a, s);
        let close = line::char_from(a, '"', s + 1);
        lemma_char_before(a, '"', s + 1);
        if close < start {
            assert(close != start - 1);
            lemma_char_is(out, '"', s + 1, close);
        } else {
            lemma_quotes_none(a, s + 1, start);
            assert(quotes(a, s + 1) == quotes(a, s) + 1);
            assert(a[start] != '"');
            assert(close >= end);
            let there = close - end + start + 10;
            assert(out[there] == a[close]);
            assert(out[there + 1] == a[close + 1]);
            assert forall|i: int| s + 1 <= i < there implies #[trigger] out[i] != '"' by {
                if i >= start + 10 {
                    assert(out[i] == a[i - (start + 10) + end]);
                }
            }
            lemma_char_is(out, '"', s + 1, there);
        }
    } else {
        let w = line::white_from(a, s);
        lemma_white_found(a, s);
        lemma_white_before(a, s);
        if w < start {
            lemma_white_is(out, s, w);
        } else {
            assert(a[start] != '"') by {
                if a[start] == '"' && w == start {
                    assert(text::is_white(a[start]));
                }
            }
            lemma_white_is(a, start, w);
            assert forall|i: int| s <= i < start + 10 implies !text::is_white(#[trigger] out[i]) by {
                if i < start {
                    assert(out[i] == a[i]);
                }
            }
            lemma_white_is(out, s, start + 10);
        }
    }
}

/// A closed value that begins behind a replaced one is closed still.
proof fn lemma_closed_back(a: Seq<char>, start: int, s: int)
    requires
        0 <= start < a.len(),
        text::is_white(a.last()),
        is_closed_value(a, start),
        closed_end(a, start) <= s <= a.len(),
        is_closed_value(a, s),
    ensures
        is_closed_value(
            a.take(start) + "[redacted]"@ + a.skip(closed_end(a, start)),
            s - closed_end(a, start) + start + 10,
        ),
{
    line::lemma_redacted();
    lemma_closed_end(a, start);
    let end = closed_end(a, start);
    let back = a.skip(end);
    let x = a.take(start) + "[redacted]"@;
    let y = a.take(end);
    let out = x + back;
    let t = s - end;
    assert(y + back =~= a);
    lemma_quotes_joined(x, back, t);
    lemma_quotes_joined(y, back, t);
    lemma_quotes_front(y, a, end);
    lemma_quotes_joined(a.take(start), "[redacted]"@, 10);
    lemma_quotes_front(a.take(start), a, start);
    lemma_quotes_none("[redacted]"@, 0, 10);
    assert(quotes(x, x.len() as int) == quotes(a, start));
    assert(out[x.len() + t] == back[t] || t == back.len());
    if t < back.len() {
        assert(a[s] == back[t]);
        if a[s] == '"' {
            lemma_char_shift(x, back, '"', t + 1);
            lemma_char_shift(y, back, '"', t + 1);
            let close = line::char_from(back, '"', t + 1);
            lemma_char_before(back, '"', t + 1);
            assert(line::char_from(a, '"', s + 1) == end + close);
            assert(out[x.len() + close + 1] == a[end + close + 1]);
        }
    }
    lemma_white_shift(x, back, t);
    lemma_white_shift(y, back, t);
    if !(s < a.len() && a[s] == '"') {
        let w = line::white_from(back, t);
        assert forall|j: int| x.len() + t <= j < x.len() + w implies #[trigger] out[j] != '"' by {
            lemma_white_before(back, t);
            assert(out[j] == a[j - x.len() + end]);
        }
    }
}

/// Replacing a closed value leaves every other one closed.
proof fn lemma_closed_kept(a: Seq<char>, keys: Seq<Seq<char>>, p: int, which: int, at: int)
    requires
        is_closed(a, keys, p),
        0 <= which <= p,
        line::shows(a, keys[which], at),
        at + keys[which].len() + 1 < a.len(),
        text::is_white(a.last()),
    ensures
        ({
            let start = at + keys[which].len() + 1;
            is_closed(
                a.take(start) + "[redacted]"@ + a.skip(closed_end(a, start)),
                keys,
                p,
            )
        }),
{
    let start = at + keys[which].len() + 1;
    let end = closed_end(a, start);
    line::lemma_redacted();
    lemma_closed_end(a, start);
    let out = a.take(start) + "[redacted]"@ + a.skip(end);
    assert(out.take(start) =~= a.take(start));
    assert(out.skip(start + 10) =~= a.skip(end));
    assert(out.subrange(start, start + 10) =~= "[redacted]"@);
    assert forall|i: int, other: int| 0 <= i <= p && #[trigger] line::shows(
        out,
        keys[i],
        other,
    ) implies is_closed_value(out, other + keys[i].len() + 1) by {
        let key = keys[i];
        let n = key.len() as int;
        let eq = other + n;
        if eq < start {
            line::lemma_same_front(out, a, start, key, other);
            assert(out.take(start)[eq] == a.take(start)[eq]);
            assert(line::shows(a, key, other));
            lemma_closed_front(a, start, eq + 1);
        } else if eq < start + 10 {
            line::lemma_redacted_at(out, start, eq);
        } else {
            assert(out[start + 9] == ']') by {
                assert(out.subrange(start, start + 10)[9] == out[start + 9]);
            }
            line::lemma_no_straddle(out, key, other, start + 9);
            let there = other - (start + 10) + end;
            line::lemma_same_back(out, start + 10, a, end, key, other);
            assert(out.skip(start + 10)[eq - (start + 10)] == a.skip(end)[eq - (start + 10)]);
            assert(line::shows(a, key, there));
            lemma_closed_back(a, start, there + n + 1);
        }
    }
}

/// Where the value that begins at `start`, before the field, ends: in `a`, or in `b`
/// behind the field where a quote is open across it.
proof fn lemma_earlier_value(
    a: Seq<char>,
    name: Seq<char>,
    v: Seq<char>,
    b: Seq<char>,
    keys: Seq<Seq<char>>,
    p: int,
    which: int,
    at: int,
)
    requires
        is_field(a, name, v, b, keys, p),
        0 <= which <= p,
        line::shows(a, keys[which], at),
        at + keys[which].len() + 1 < a.len(),
    ensures
        ({
            let start = at + keys[which].len() + 1;
            let l = with_value(a, name, v, b);
            let close = line::char_from(a, '"', start + 1);
            let far = line::char_from(b, '"', 0);
            if a[start] == '"' && close >= a.len() {
                line::replaced_value(l, start) == a.take(start) + "[redacted]"@ + b.skip(
                    if far < b.len() {
                        far + 1
                    } else {
                        b.len() as int
                    },
                )
            } else {
                let end = if a[start] == '"' {
                    close + 1
                } else {
                    line::white_from(a, start)
                };
                let changed = a.take(start) + "[redacted]"@ + a.skip(end);
                &&& start <= end < a.len()
                &&& line::replaced_value(l, start) == with_value(changed, name, v, b)
                &&& is_field(changed, name, v, b, keys, p)
            }
        }),
{
    lemma_field(a, name, v, b, keys, p);
    let start = at + keys[which].len() + 1;
    let l = with_value(a, name, v, b);
    let middle = name + seq!['='] + v;
    let tail = name + seq!['='] + v + b;
    let close = line::char_from(a, '"', start + 1);
    let far = line::char_from(b, '"', 0);
    assert(l[start] == a[start]);
    lemma_char_joined(a, tail, '"', start + 1);
    lemma_white_joined(a, tail, start);
    lemma_white_found(a, start);
    if a[start] == '"' && close >= a.len() {
        assert(is_bare(v, 0));
        lemma_bare_end(middle, 0);
        lemma_char_joined(middle, b, '"', 0);
        assert(tail =~= middle + b);
        line::lemma_value_end(l, start);
        let end = line::value_end(l, start);
        let cut = if far < b.len() {
            far + 1
        } else {
            b.len() as int
        };
        if far < b.len() {
            lemma_char_found(b, '"', 0);
        }
        assert(end == a.len() + middle.len() + cut);
        assert(l.take(start) =~= a.take(start));
        assert(l.skip(end) =~= b.skip(cut));
    } else {
        if a[start] == '"' {
            lemma_char_found(a, '"', start + 1);
            assert(close != a.len() - 1) by {
                if close == a.len() - 1 {
                    assert(a.last() == '"');
                }
            }
        }
        let end = line::value_end(l, start);
        let changed = a.take(start) + "[redacted]"@ + a.skip(end);
        assert(line::replaced_value(l, start) =~= with_value(changed, name, v, b));
        assert(changed.last() == a.last());
        line::lemma_redacted();
        if !is_bare(v, 0) {
            lemma_closed_kept(a, keys, p, which, at);
        }
        lemma_ascii_parts(a, start);
        lemma_ascii_parts(a, end);
        lemma_ascii_joined(a.take(start), "[redacted]"@);
        lemma_ascii_joined(a.take(start) + "[redacted]"@, a.skip(end));
    }
}

/// Masking a key keeps two lines alike that differ in the value of a field at most, and
/// makes them the same where the key is the name of the field and lies ahead.
proof fn lemma_alike(
    a: Seq<char>,
    name: Seq<char>,
    v1: Seq<char>,
    v2: Seq<char>,
    b: Seq<char>,
    keys: Seq<Seq<char>>,
    p: int,
    which: int,
    from: int,
)
    requires
        is_field(a, name, v1, b, keys, p),
        is_field(a, name, v2, b, keys, p),
        0 <= which <= p < keys.len(),
        is_name(keys[which]),
        keys[p] == text::ascii_lowered(name),
        0 <= from <= a.len() + name.len(),
        which == p ==> from <= a.len(),
    ensures
        is_alike(
            line::masked_from(with_value(a, name, v1, b), keys[which], from),
            line::masked_from(with_value(a, name, v2, b), keys[which], from),
            name,
            keys,
            p,
        ),
        from <= a.len() && keys[which] == text::ascii_lowered(name) ==> line::masked_from(
            with_value(a, name, v1, b),
            keys[which],
            from,
        ) == line::masked_from(with_value(a, name, v2, b), keys[which], from),
    decreases with_value(a, name, v1, b).len() - from,
{
    let key = keys[which];
    lemma_field(a, name, v1, b, keys, p);
    lemma_field(a, name, v2, b, keys, p);
    let front = a + name + seq!['='];
    let low = text::ascii_lowered(front);
    let m = a.len() + name.len();
    let n = key.len() as int;
    let l1 = with_value(a, name, v1, b);
    let l2 = with_value(a, name, v2, b);
    let q = line::first_at(low, key, from);
    if q < 0 {
        if key == text::ascii_lowered(name) && from <= a.len() {
            assert(low.subrange(a.len() as int, a.len() + n) =~= key);
            line::lemma_first_at(low, key, from, a.len() as int);
        }
        lemma_value_word(a, name, v1, b, keys, p, which, from);
        lemma_value_word(a, name, v2, b, keys, p, which, from);
        let w1 = line::masked_from(front + v1, key, front.len() as int).skip(front.len() as int);
        let w2 = line::masked_from(front + v2, key, front.len() as int).skip(front.len() as int);
        let rest = line::masked_from(b, key, 0);
        assert(is_pair(
            line::masked_from(l1, key, from),
            line::masked_from(l2, key, from),
            a,
            name,
            w1,
            w2,
            rest,
            keys,
            p,
        ));
    } else {
        lemma_unfold(l1, key, from);
        lemma_unfold(l2, key, from);
        line::lemma_first_at_holds(low, key, from);
        lemma_first_in_front(low, text::ascii_lowered(v1 + b), key, from);
        lemma_first_in_front(low, text::ascii_lowered(v2 + b), key, from);
        let after = q + n;
        assert(low[m as int] == '=') by {
            assert(front[m as int] == '=');
        }
        if after > m {
            lemma_is_at_char(low, q, key, m as int);
            assert(key[m - q] == '=');
        }
        assert(l1[after] == front[after] && l2[after] == front[after]);
        if after == m {
            lemma_value_replaced(front, v1, b);
            lemma_value_replaced(front, v2, b);
        } else if front[after] == '=' {
            if after >= a.len() {
                assert(front[after] == name[after - a.len()]);
            }
            let start = after + 1;
            assert(front[after] == a[after]);
            assert(start < a.len()) by {
                if start == a.len() {
                    assert(a.last() == '=');
                }
            }
            assert(line::shows(a, key, q)) by {
                assert(text::ascii_lowered(a).subrange(q, q + n) =~= low.subrange(q, q + n));
            }
            lemma_earlier_value(a, name, v1, b, keys, p, which, q);
            lemma_earlier_value(a, name, v2, b, keys, p, which, q);
            let close = line::char_from(a, '"', start + 1);
            if !(a[start] == '"' && close >= a.len()) {
                let end = if a[start] == '"' {
                    close + 1
                } else {
                    line::white_from(a, start)
                };
                let changed = a.take(start) + "[redacted]"@ + a.skip(end);
                line::lemma_redacted();
                lemma_alike(changed, name, v1, v2, b, keys, p, which, start + 10);
            }
        } else {
            if key == text::ascii_lowered(name) && from <= a.len() && after > a.len() {
                if q < a.len() {
                    lemma_is_at_char(low, q, key, a.len() - 1);
                    assert(front[a.len() - 1] == a.last());
                    assert(low[a.len() - 1] == text::ascii_lower_char(a.last()));
                    assert(text::is_white(key[a.len() - 1 - q]));
                }
            }
            lemma_alike(a, name, v1, v2, b, keys, p, which, after);
        }
    }
}

/// [`law_value_does_not_show`] for the first `n` keys: lines that differ in the value of a
/// field at most stay so, and are the same once the field's name has been masked.
proof fn lemma_masked_alike(
    a: Seq<char>,
    name: Seq<char>,
    v1: Seq<char>,
    v2: Seq<char>,
    b: Seq<char>,
    keys: Seq<Seq<char>>,
    p: int,
    n: int,
)
    requires
        is_field(a, name, v1, b, keys, p),
        is_field(a, name, v2, b, keys, p),
        forall|i: int| 0 <= i < keys.len() ==> is_name(#[trigger] keys[i]),
        0 <= p < keys.len(),
        keys[p] == text::ascii_lowered(name),
        0 <= n <= keys.len(),
    ensures
        is_alike(
            line::masked(with_value(a, name, v1, b), keys.take(n)),
            line::masked(with_value(a, name, v2, b), keys.take(n)),
            name,
            keys,
            p,
        ),
        n > p ==> line::masked(with_value(a, name, v1, b), keys.take(n)) == line::masked(
            with_value(a, name, v2, b),
            keys.take(n),
        ),
    decreases n,
{
    let l1 = with_value(a, name, v1, b);
    let l2 = with_value(a, name, v2, b);
    if n == 0 {
        assert(is_pair(l1, l2, a, name, v1, v2, b, keys, p));
    } else {
        let shorter = keys.take(n - 1);
        assert(keys.take(n).drop_last() =~= shorter);
        lemma_masked_alike(a, name, v1, v2, b, keys, p, n - 1);
        let m1 = line::masked(l1, shorter);
        let m2 = line::masked(l2, shorter);
        if m1 != m2 {
            let (a2, w1, w2, b2) = choose|
                a2: Seq<char>,
                w1: Seq<char>,
                w2: Seq<char>,
                b2: Seq<char>,
            | #[trigger] is_pair(m1, m2, a2, name, w1, w2, b2, keys, p);
            lemma_alike(a2, name, w1, w2, b2, keys, p, n - 1, 0);
        }
    }
}

/// The masked line does not depend on the value: whatever stands as the value of a field
/// with a configured name, in whatever case it is written, the line comes out the same.
/// The field is a word of its own in an ASCII line. Its value holds neither white space
/// nor a double quote, or it is quoted. Where it is quoted, every configured value before
/// it in the line is closed, and it holds no field of a key that is masked before its own.
pub proof fn law_value_does_not_show(
    a: Seq<char>,
    name: Seq<char>,
    v1: Seq<char>,
    v2: Seq<char>,
    b: Seq<char>,
    keys: Seq<Seq<char>>,
    p: int,
)
    requires
        is_field(a, name, v1, b, keys, p),
        is_field(a, name, v2, b, keys, p),
        forall|i: int| 0 <= i < keys.len() ==> is_name(#[trigger] keys[i]),
        0 <= p < keys.len(),
        keys[p] == text::ascii_lowered(name),
    ensures
        line::masked(with_value(a, name, v1, b), keys) == line::masked(
            with_value(a, name, v2, b),
            keys,
        ),
{
    lemma_masked_alike(a, name, v1, v2, b, keys, p, keys.len() as int);
    assert(keys.take(keys.len() as int) =~= keys);
}

/// Whether a word begins in `l` at position `at`: at the start or behind white space.
pub open spec fn starts_word(l: Seq<char>, at: int) -> bool {
    at == 0 || text::is_white(l[at - 1])
}

/// Whether a word of `l` that begins at position `at` is `key=`, in whatever case, and
/// whatever follows.
pub open spec fn shows_word(l: Seq<char>, key: Seq<char>, at: int) -> bool {
    line::shows(l, key, at) && starts_word(l, at)
}

/// Whether `l` shows no field of the name `key`: behind every `key=` that begins a word
/// stands `[redacted]`.
pub open spec fn shows_no_field(l: Seq<char>, key: Seq<char>) -> bool {
    forall|at: int| #[trigger]
        shows_word(l, key, at) ==> line::is_redacted(l, at + key.len() + 1)
}

/// Whether masking `key` is done with the words that begin before `from`.
spec fn is_done_before(l: Seq<char>, key: Seq<char>, from: int) -> bool {
    forall|at: int| #[trigger]
        shows_word(l, key, at) && at < from ==> at + key.len() < from && line::is_redacted(
            l,
            at + key.len() + 1,
        )
}

/// A word `key=` that ends behind a replaced value begins behind it.
proof fn lemma_word_behind(l: Seq<char>, key: Seq<char>, start: int, at: int)
    requires
        is_name(key),
        0 < start <= l.len(),
        l[start - 1] == '=',
        shows_word(line::replaced_value(l, start), key, at),
        at + key.len() >= start,
    ensures
        at > start + 10,
{
    line::lemma_redacted();
    line::lemma_value_end(l, start);
    let out = line::replaced_value(l, start);
    let low = text::ascii_lowered(out);
    let eq = at + key.len();
    assert(out[start - 1] == '=');
    assert(out.subrange(start, start + 10) =~= "[redacted]"@);
    if eq < start + 10 {
        line::lemma_redacted_at(out, start, eq);
    } else if at < start {
        lemma_is_at_char(low, at, key, start - 1);
        assert(low[start - 1] == text::ascii_lower_char(out[start - 1]));
        assert(key[start - 1 - at] == '=');
    } else if at <= start + 10 {
        if at > start {
            assert(out[at - 1] == "[redacted]"@[at - 1 - start]);
        }
        assert(!text::is_white(out[at - 1]));
    }
}

/// Replacing a value, whatever the key it belongs to, brings no field of `key` to light.
proof fn lemma_replacing_keeps(l: Seq<char>, key: Seq<char>, start: int)
    requires
        is_name(key),
        shows_no_field(l, key),
        0 < start <= l.len(),
        l[start - 1] == '=',
    ensures
        shows_no_field(line::replaced_value(l, start), key),
{
    line::lemma_redacted();
    line::lemma_value_end(l, start);
    let end = line::value_end(l, start);
    let out = line::replaced_value(l, start);
    let n = key.len() as int;
    assert(out.take(start) =~= l.take(start));
    assert(out.skip(start + 10) =~= l.skip(end));
    assert(out.subrange(start, start + 10) =~= "[redacted]"@);
    assert forall|at: int| #[trigger] shows_word(out, key, at) implies line::is_redacted(
        out,
        at + key.len() + 1,
    ) by {
        let eq = at + n;
        if eq < start {
            line::lemma_same_front(out, l, start, key, at);
            assert(out.take(start)[eq] == l.take(start)[eq]);
            if at > 0 {
                assert(out.take(start)[at - 1] == l.take(start)[at - 1]);
            }
            assert(shows_word(l, key, at));
            if eq + 1 < start {
                assert(line::is_redacted(l, eq + 1));
                if start < eq + 11 {
                    line::lemma_redacted_at(l, eq + 1, start - 1);
                }
                line::lemma_same_front(l, out, start, "[redacted]"@, eq + 1);
            }
        } else {
            lemma_word_behind(l, key, start, at);
            let there = at - (start + 10) + end;
            line::lemma_same_back(out, start + 10, l, end, key, at);
            assert(out.skip(start + 10)[eq - (start + 10)] == l.skip(end)[eq - (start + 10)]);
            assert(out.skip(start + 10)[at - 1 - (start + 10)] == l.skip(end)[at - 1 - (start
                + 10)]);
            assert(shows_word(l, key, there));
            assert(line::is_redacted(l, there + n + 1));
            line::lemma_same_back(l, end, out, start + 10, "[redacted]"@, there + n + 1);
        }
    }
}

/// Masking another key brings no field of `key` to light.
proof fn lemma_masking_keeps(l: Seq<char>, other: Seq<char>, from: int, key: Seq<char>)
    requires
        is_name(key),
        other.len() > 0,
        0 <= from,
        shows_no_field(l, key),
        text::is_ascii(l),
    ensures
        shows_no_field(line::masked_from(l, other, from), key),
    decreases l.len() - from,
{
    if from < l.len() {
        lemma_unfold(l, other, from);
        let p = line::first_at(text::ascii_lowered(l), other, from);
        let after = p + other.len();
        if p >= 0 {
            if after < l.len() && l[after] == '=' {
                line::lemma_redacted();
                line::lemma_value_end(l, after + 1);
                lemma_replacing_keeps(l, key, after + 1);
                line::lemma_replaced_is_ascii(l, after + 1);
                lemma_masking_keeps(line::replaced_value(l, after + 1), other, after + 11, key);
            } else {
                lemma_masking_keeps(l, other, after, key);
            }
        }
    }
}

/// One value replaced: what begins before the place behind it is done.
proof fn lemma_masking_step(l: Seq<char>, key: Seq<char>, from: int, place: int)
    requires
        is_name(key),
        is_done_before(l, key, from),
        0 <= from <= place,
        place + key.len() < l.len(),
        l[place + key.len()] == '=',
        forall|at: int| #[trigger] shows_word(l, key, at) && at >= from ==> place <= at,
    ensures
        is_done_before(
            line::replaced_value(l, place + key.len() + 1),
            key,
            place + key.len() + 11,
        ),
{
    let n = key.len() as int;
    let after = place + n;
    let start = after + 1;
    line::lemma_redacted();
    line::lemma_value_end(l, start);
    let out = line::replaced_value(l, start);
    assert(out.take(start) =~= l.take(start));
    assert(out.subrange(start, start + 10) =~= "[redacted]"@);
    assert forall|at: int| #[trigger] shows_word(out, key, at) && at < start + 10 implies at
        + key.len() < start + 10 && line::is_redacted(out, at + key.len() + 1) by {
        let eq = at + n;
        if eq < start {
            line::lemma_same_front(out, l, start, key, at);
            assert(out.take(start)[eq] == l.take(start)[eq]);
            if at > 0 {
                assert(out.take(start)[at - 1] == l.take(start)[at - 1]);
            }
            assert(shows_word(l, key, at));
            if eq < after {
                assert(at < from);
                assert(line::is_redacted(l, eq + 1));
                if after < eq + 11 {
                    line::lemma_redacted_at(l, eq + 1, after);
                }
                line::lemma_same_front(l, out, start, "[redacted]"@, eq + 1);
            }
        } else {
            lemma_word_behind(l, key, start, at);
        }
    }
}

/// Masking a key from `from` on, where what begins before is done, leaves no field of it.
proof fn lemma_masking_finds(l: Seq<char>, key: Seq<char>, from: int)
    requires
        is_name(key),
        0 <= from,
        text::is_ascii(l),
        is_done_before(l, key, from),
    ensures
        shows_no_field(line::masked_from(l, key, from), key),
    decreases l.len() - from,
{
    let n = key.len() as int;
    let low = text::ascii_lowered(l);
    if from < l.len() {
        lemma_unfold(l, key, from);
        let p = line::first_at(low, key, from);
        let after = p + n;
        assert forall|at: int| #[trigger] shows_word(l, key, at) && at >= from implies 0 <= p
            <= at by {
            line::lemma_first_at(low, key, from, at);
        }
        if p >= 0 {
            if after < l.len() && l[after] == '=' {
                lemma_masking_step(l, key, from, p);
                line::lemma_redacted();
                line::lemma_value_end(l, after + 1);
                line::lemma_replaced_is_ascii(l, after + 1);
                lemma_masking_finds(line::replaced_value(l, after + 1), key, after + 11);
            } else {
                assert forall|at: int| #[trigger] shows_word(l, key, at) && at < after implies at
                    + key.len() < after && line::is_redacted(l, at + key.len() + 1) by {
                    if at >= from && at > p {
                        lemma_is_at_char(low, p, key, at - 1);
                        assert(low[at - 1] == text::ascii_lower_char(l[at - 1]));
                        assert(text::is_white(key[at - 1 - p]));
                    }
                }
                lemma_masking_finds(l, key, after);
            }
        }
    }
}

/// Redaction leaves no field: in an ASCII line, behind every `key=` of every configured
/// key that begins a word, in whatever case it is written, stands `[redacted]`.
pub proof fn law_no_field_survives(l: Seq<char>, keys: Seq<Seq<char>>)
    requires
        text::is_ascii(l),
        forall|i: int| 0 <= i < keys.len() ==> is_name(#[trigger] keys[i]),
    ensures
        forall|i: int|
            0 <= i < keys.len() ==> shows_no_field(line::masked(l, keys), #[trigger] keys[i]),
        text::is_ascii(line::masked(l, keys)),
    decreases keys.len(),
{
    if keys.len() > 0 {
        let shorter = keys.drop_last();
        let last = keys[keys.len() - 1];
        assert forall|i: int| 0 <= i < shorter.len() implies is_name(#[trigger] shorter[i]) by {
            assert(shorter[i] == keys[i]);
        }
        law_no_field_survives(l, shorter);
        let before = line::masked(l, shorter);
        lemma_masking_finds(before, last, 0);
        lemma_masked_is_ascii(before, last, 0);
        assert forall|i: int| 0 <= i < keys.len() implies shows_no_field(
            line::masked(l, keys),
            #[trigger] keys[i],
        ) by {
            if i < shorter.len() {
                assert(shorter[i] == keys[i]);
                lemma_masking_keeps(before, last, 0, keys[i]);
            }
        }
    }
}

/// How many characters a text has once each of its characters is in lower case.
pub open spec fn lower_width(s: Seq<char>) -> int
    decreases s.len(),
{
    if s.len() == 0 {
        0
    } else {
        lower_width(s.drop_last()) + text::lowercase_char(s.last()).len()
    }
}

/// Whether the first `n` characters of `s` are just enough for `width` characters in
/// lower case, or all there are.
pub open spec fn just_covers(s: Seq<char>, n: int, width: int) -> bool {
    &&& 0 <= n <= s.len()
    &&& forall|m: int| 0 <= m < n ==> lower_width(#[trigger] s.take(m)) < width
    &&& n == s.len() || lower_width(s.take(n)) >= width
}

/// Whether `p` is where `key` first stands in `s`.
pub open spec fn first_stands(s: Seq<char>, key: Seq<char>, p: int) -> bool {
    &&& 0 <= p <= s.len() - key.len()
    &&& s.subrange(p, p + key.len()) == key
    &&& forall|i: int| 0 <= i < p ==> #[trigger] s.subrange(i, i + key.len()) != key
}

/// Whether the value that begins at `start` of `l` ends before `end`. A value that
/// begins with a quote runs through the next quote, or to the end of the line where
/// there is none; any other value runs to the first white space or to the end.
pub open spec fn value_ends(l: Seq<char>, start: int, end: int) -> bool {
    &&& start <= end <= l.len()
    &&& if start < l.len() && l[start] == '"' {
        ||| end >= start + 2 && l[end - 1] == '"' && (forall|i: int|
            start < i < end - 1 ==> #[trigger] l[i] != '"')
        ||| end == l.len() && (forall|i: int| start < i < end ==> #[trigger] l[i] != '"')
    } else {
        &&& forall|i: int| start <= i < end ==> !text::is_white(#[trigger] l[i])
        &&& end < l.len() ==> text::is_white(l[end])
    }
}

/// The width of a text does not depend on where it is cut.
proof fn lemma_lower_width(s: Seq<char>, t: Seq<char>)
    ensures
        lower_width(s + t) == lower_width(s) + lower_width(t),
    decreases t.len(),
{
    if t.len() == 0 {
        assert(s + t =~= s);
    } else {
        lemma_lower_width(s, t.drop_last());
        assert((s + t).drop_last() =~= s + t.drop_last());
        assert((s + t).last() == t.last());
    }
}

/// What just covers a width is what covering it counts.
proof fn lemma_just_covers(s: Seq<char>, n: int, width: int)
    requires
        width > 0,
        just_covers(s, n, width),
    ensures
        line::covering(s, width) == n,
    decreases s.len(),
{
    if s.len() > 0 {
        let rest = s.skip(1);
        let first = seq![s[0]];
        let w = text::lowercase_char(s[0]).len() as int;
        assert(first.drop_last() =~= Seq::<char>::empty());
        assert(lower_width(first.drop_last()) == 0);
        assert(lower_width(first) == w);
        assert(s.take(0) =~= Seq::<char>::empty());
        assert(lower_width(s.take(0)) == 0);
        assert(n > 0);
        assert(s.take(1) =~= first);
        assert forall|m: int| 0 <= m <= rest.len() implies lower_width(#[trigger] rest.take(m)) + w
            == lower_width(s.take(m + 1)) by {
            assert(s.take(m + 1) =~= first + rest.take(m));
            lemma_lower_width(first, rest.take(m));
        }
        if w >= width {
            if n > 1 {
                assert(lower_width(s.take(1)) < width);
            }
            assert(n == 1);
            assert(line::covering(rest, width - w) == 0);
        } else {
            assert forall|m: int| 0 <= m < n - 1 implies lower_width(#[trigger] rest.take(m))
                < width - w by {
                assert(lower_width(s.take(m + 1)) < width);
            }
            if n < s.len() {
                assert(lower_width(rest.take(n - 1)) + w == lower_width(s.take(n)));
            }
            lemma_just_covers(rest, n - 1, width - w);
        }
    }
}

/// The first place at which a key stands is what the search finds.
proof fn lemma_first_stands(s: Seq<char>, key: Seq<char>, from: int, p: int)
    requires
        0 <= from <= p,
        first_stands(s, key, p),
    ensures
        line::first_at(s, key, from) == p,
    decreases p - from,
{
    if from < p {
        assert(s.subrange(from, from + key.len()) != key);
        lemma_first_stands(s, key, from + 1, p);
    }
}

/// The search finds nothing where a key does not stand.
proof fn lemma_never_stands(s: Seq<char>, key: Seq<char>, from: int)
    requires
        0 <= from,
        key.len() > 0,
        forall|i: int| 0 <= i <= s.len() - key.len() ==> #[trigger] s.subrange(i, i + key.len())
            != key,
    ensures
        line::first_at(s, key, from) < 0,
    decreases s.len() - from,
{
    if from <= s.len() - key.len() {
        assert(s.subrange(from, from + key.len()) != key);
    }
    if from < s.len() {
        lemma_never_stands(s, key, from + 1);
    }
}

/// A value ends where the search for its end stops.
proof fn lemma_value_ends(l: Seq<char>, start: int, end: int)
    requires
        0 <= start,
        value_ends(l, start, end),
    ensures
        line::value_end(l, start) == end,
{
    if start < l.len() && l[start] == '"' {
        if end >= start + 2 && l[end - 1] == '"' && (forall|i: int|
            start < i < end - 1 ==> #[trigger] l[i] != '"') {
            lemma_char_is(l, '"', start + 1, end - 1);
        } else {
            lemma_char_is(l, '"', start + 1, end);
        }
    } else {
        lemma_white_is(l, start, end);
    }
}

/// Masking by a list of keys is masking by its keys one after another: by some of them,
/// and then what comes out by the rest. Nothing is asked of the line or of the keys.
pub proof fn law_keys_one_after_another(
    l: Seq<char>,
    keys: Seq<Seq<char>>,
    more: Seq<Seq<char>>,
)
    ensures
        line::masked(l, keys + more) == line::masked(line::masked(l, keys), more),
        line::masked(l, Seq::empty()) == l,
        line::masked(l, seq![Seq::empty()]) == l,
    decreases more.len(),
{
    assert(seq![Seq::<char>::empty()].drop_last() =~= Seq::<Seq<char>>::empty());
    assert(line::masked(l, seq![Seq::<char>::empty()].drop_last()) == l);
    if more.len() == 0 {
        assert(keys + more =~= keys);
    } else {
        law_keys_one_after_another(l, keys, more.drop_last());
        assert((keys + more).drop_last() =~= keys + more.drop_last());
        assert((keys + more).last() == more.last());
    }
}

/// Where a key is not found in a line in lower case, masking by it changes nothing.
pub proof fn law_key_not_found(l: Seq<char>, key: Seq<char>)
    requires
        key.len() > 0,
        ({
            let low = text::lowercase(l);
            forall|i: int|
                0 <= i <= low.len() - key.len() ==> #[trigger] low.subrange(i, i + key.len()) != key
        }),
    ensures
        line::masked(l, seq![key]) == l,
{
    lemma_never_stands(text::lowercase(l), key, 0);
    lemma_one_key(l, key);
    assert(l.skip(0) =~= l);
}

/// Masking by one key.
proof fn lemma_one_key(l: Seq<char>, key: Seq<char>)
    requires
        key.len() > 0,
    ensures
        line::masked(l, seq![key]) == line::masked_from(l, key, 0),
{
    assert(seq![key].drop_last() =~= Seq::<Seq<char>>::empty());
    assert(line::masked(l, seq![key].drop_last()) == l);
}

/// One step of masking by a key that is found.
proof fn lemma_found(l: Seq<char>, key: Seq<char>, p: int, n: int)
    requires
        key.len() > 0,
        l.len() > 0,
        first_stands(text::lowercase(l), key, p),
        just_covers(l, n, p + key.len()),
    ensures
        line::masked_from(l, key, 0) == if n < l.len() && l[n] == '=' {
            line::masked_from(
                l.take(n + 1) + "[redacted]"@ + l.skip(line::value_end(l, n + 1)),
                key,
                n + 1 + "[redacted]"@.len(),
            )
        } else {
            line::masked_from(l, key, n)
        },
{
    lemma_first_stands(text::lowercase(l), key, 0, p);
    lemma_just_covers(l, n, p + key.len());
    assert(l.skip(0) =~= l);
}

/// Where a key is found with `=` behind it, `[redacted]` stands in the place of the value
/// and of nothing else: the line up to and with the `=` stays, and behind the value
/// masking by the key goes on as if the line began there. `n` counts the characters up to
/// the end of the key, and `end` those up to the end of the value. Nothing is asked of
/// the line but that the key is found.
pub proof fn law_found_value_is_redacted(l: Seq<char>, key: Seq<char>, p: int, n: int, end: int)
    requires
        key.len() > 0,
        l.len() > 0,
        first_stands(text::lowercase(l), key, p),
        just_covers(l, n, p + key.len()),
        n < l.len(),
        l[n] == '=',
        value_ends(l, n + 1, end),
    ensures
        line::masked(l, seq![key]) == l.take(n + 1) + "[redacted]"@ + line::masked(
            l.skip(end),
            seq![key],
        ),
{
    lemma_one_key(l, key);
    lemma_one_key(l.skip(end), key);
    lemma_found(l, key, p, n);
    lemma_value_ends(l, n + 1, end);
    let front = l.take(n + 1) + "[redacted]"@;
    lemma_shift(front, l.skip(end), key, 0);
}

/// Where a key is found with anything else behind it, the line up to the end of the key
/// stays, and behind it masking by the key goes on as if the line began there.
pub proof fn law_found_word_is_passed(l: Seq<char>, key: Seq<char>, p: int, n: int)
    requires
        key.len() > 0,
        l.len() > 0,
        first_stands(text::lowercase(l), key, p),
        just_covers(l, n, p + key.len()),
        n < l.len() ==> l[n] != '=',
    ensures
        line::masked(l, seq![key]) == l.take(n) + line::masked(l.skip(n), seq![key]),
{
    lemma_one_key(l, key);
    lemma_one_key(l.skip(n), key);
    lemma_found(l, key, p, n);
    assert(l.take(n) + l.skip(n) =~= l);
    lemma_shift(l.take(n), l.skip(n), key, 0);
}

/// Every key of a list is masked, in any line: each key is looked for in what the keys
/// before it left, and where it is found there with `=` behind it, `[redacted]` comes
/// to stand behind the `=`, the rest is masked by the same key, and what comes out is
/// handed to the keys behind it.
pub proof fn law_every_key_redacts(
    l: Seq<char>,
    keys: Seq<Seq<char>>,
    i: int,
    p: int,
    n: int,
    end: int,
)
    requires
        0 <= i < keys.len(),
        keys[i].len() > 0,
        ({
            let given = line::masked(l, keys.take(i));
            &&& given.len() > 0
            &&& first_stands(text::lowercase(given), keys[i], p)
            &&& just_covers(given, n, p + keys[i].len())
            &&& n < given.len()
            &&& given[n] == '='
            &&& value_ends(given, n + 1, end)
        }),
    ensures
        ({
            let given = line::masked(l, keys.take(i));
            let left = given.take(n + 1) + "[redacted]"@ + line::masked(
                given.skip(end),
                seq![keys[i]],
            );
            &&& line::masked(l, keys.take(i + 1)) == left
            &&& line::masked(l, keys) == line::masked(left, keys.skip(i + 1))
        }),
{
    let given = line::masked(l, keys.take(i));
    law_found_value_is_redacted(given, keys[i], p, n, end);
    assert(keys.take(i) + seq![keys[i]] =~= keys.take(i + 1));
    assert(keys.take(i + 1) + keys.skip(i + 1) =~= keys);
    law_keys_one_after_another(l, keys.take(i), seq![keys[i]]);
    law_keys_one_after_another(l, keys.take(i + 1), keys.skip(i + 1));
}

} // verus!
