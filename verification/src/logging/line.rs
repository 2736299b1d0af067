//! The text of a log line: process-wide fields in front, sensitive values masked.

use vstd::prelude::*;

use crate::text::{
    self, char_to_lowercase, chars_of, is_whitespace, occurs_at, string_between, string_of,
    to_lowercase,
};

verus! {

broadcast use vstd::string::group_string_axioms;

/// The first position at or after `from` at which `pattern` stands in `s`, or -1.
pub open spec fn first_at(s: Seq<char>, pattern: Seq<char>, from: int) -> int
    decreases s.len() - from,
{
    if text::is_at(s, from, pattern) {
        from
    } else if from < s.len() {
        first_at(s, pattern, from + 1)
    } else {
        -1
    }
}

/// How many characters of `s` it takes for their lower-case forms to fill `width`
/// characters; all of them where they do not.
pub open spec fn covering(s: Seq<char>, width: int) -> int
    decreases s.len(),
{
    if width <= 0 || s.len() == 0 {
        0
    } else {
        1 + covering(s.skip(1), width - text::lowercase_char(s[0]).len())
    }
}

/// The first position at or after `from` that holds `c`, or the length.
pub open spec fn char_from(s: Seq<char>, c: char, from: int) -> int
    decreases s.len() - from,
{
    if from >= s.len() {
        s.len() as int
    } else if s[from] == c {
        from
    } else {
        char_from(s, c, from + 1)
    }
}

/// The first position at or after `from` that holds white space, or the length.
pub open spec fn white_from(s: Seq<char>, from: int) -> int
    decreases s.len() - from,
{
    if from >= s.len() {
        s.len() as int
    } else if text::is_white(s[from]) {
        from
    } else {
        white_from(s, from + 1)
    }
}

/// Where the value that begins at `start` ends. A quoted value runs through its
/// closing quote, or to the end where it has none; any other value ends before the
/// first white space.
pub open spec fn value_end(s: Seq<char>, start: int) -> int {
    if start < s.len() && s[start] == '"' {
        let close = char_from(s, '"', start + 1);
        if close < s.len() {
            close + 1
        } else {
            s.len() as int
        }
    } else {
        white_from(s, start)
    }
}

/// `line` with the value of each `key=value` at or after `from` replaced by
/// `[redacted]`.
///
/// The key is looked for in the lower-cased rest of the line, and the search goes on
/// behind what was found.
pub open spec fn masked_from(line: Seq<char>, key: Seq<char>, from: int) -> Seq<char>
    decreases line.len() - from,
    when 0 <= from && key.len() > 0
    via masked_from_decreases
{
    if from >= line.len() {
        line
    } else {
        let rest = line.skip(from);
        let found = first_at(text::lowercase(rest), key, 0);
        if found < 0 {
            line
        } else {
            let after = from + covering(rest, found + key.len());
            if after < line.len() && line[after] == '=' {
                masked_from(
                    line.take(after + 1) + "[redacted]"@ + line.skip(value_end(line, after + 1)),
                    key,
                    after + 1 + "[redacted]"@.len(),
                )
            } else {
                masked_from(line, key, after)
            }
        }
    }
}

#[via_fn]
proof fn masked_from_decreases(line: Seq<char>, key: Seq<char>, from: int) {
    if from < line.len() {
        let rest = line.skip(from);
        let found = first_at(text::lowercase(rest), key, 0);
        if found >= 0 {
            lemma_covering(rest, found + key.len());
            let after = from + covering(rest, found + key.len());
            if after < line.len() {
                lemma_value_end(line, after + 1);
            }
        }
    }
}

pub proof fn lemma_covering(s: Seq<char>, width: int)
    ensures
        0 <= covering(s, width) <= s.len(),
        width > 0 && s.len() > 0 ==> covering(s, width) >= 1,
    decreases s.len(),
{
    if width > 0 && s.len() > 0 {
        lemma_covering(s.skip(1), width - text::lowercase_char(s[0]).len());
    }
}

proof fn lemma_char_from(s: Seq<char>, c: char, from: int)
    requires
        0 <= from <= s.len(),
    ensures
        from <= char_from(s, c, from) <= s.len(),
    decreases s.len() - from,
{
    if from < s.len() && s[from] != c {
        lemma_char_from(s, c, from + 1);
    }
}

proof fn lemma_white_from(s: Seq<char>, from: int)
    requires
        0 <= from <= s.len(),
    ensures
        from <= white_from(s, from) <= s.len(),
    decreases s.len() - from,
{
    if from < s.len() && !text::is_white(s[from]) {
        lemma_white_from(s, from + 1);
    }
}

pub proof fn lemma_value_end(s: Seq<char>, start: int)
    requires
        0 <= start <= s.len(),
    ensures
        start <= value_end(s, start) <= s.len(),
{
    if start < s.len() && s[start] == '"' {
        lemma_char_from(s, '"', start + 1);
    } else {
        lemma_white_from(s, start);
    }
}

/// `line` with the value of every `key=value` replaced, key after key. An empty key
/// names no field.
pub open spec fn masked(line: Seq<char>, keys: Seq<Seq<char>>) -> Seq<char>
    decreases keys.len(),
{
    if keys.len() == 0 {
        line
    } else {
        let before = masked(line, keys.drop_last());
        if keys.last().len() == 0 {
            before
        } else {
            masked_from(before, keys.last(), 0)
        }
    }
}

/// Masking never goes back: what lies before the place it works at stays as it is.
pub proof fn law_masked_keeps_front(line: Seq<char>, key: Seq<char>, from: int)
    requires
        0 <= from <= line.len(),
        key.len() > 0,
    ensures
        masked_from(line, key, from).len() >= from,
        masked_from(line, key, from).take(from) == line.take(from),
    decreases line.len() - from,
{
    if from < line.len() {
        let rest = line.skip(from);
        let found = first_at(text::lowercase(rest), key, 0);
        if found >= 0 {
            lemma_covering(rest, found + key.len());
            let after = from + covering(rest, found + key.len());
            if after < line.len() && line[after] == '=' {
                lemma_value_end(line, after + 1);
                let changed = line.take(after + 1) + "[redacted]"@ + line.skip(
                    value_end(line, after + 1),
                );
                let next = after + 1 + "[redacted]"@.len();
                law_masked_keeps_front(changed, key, next);
                let out = masked_from(changed, key, next);
                assert(out.take(from) =~= out.take(next).take(from));
                assert(changed.take(next).take(from) =~= line.take(from));
            } else {
                law_masked_keeps_front(line, key, after);
                let out = masked_from(line, key, after);
                assert(out.take(from) =~= out.take(after).take(from));
                assert(line.take(after).take(from) =~= line.take(from));
            }
        }
    }
}

/// A sensitive value does not survive: where the first occurrence of a key, without
/// regard to case, is followed by `=`, the masked line reads `key=[redacted]` there,
/// and what follows comes from behind the value.
pub proof fn law_mask_redacts(line: Seq<char>, key: Seq<char>)
    requires
        key.len() > 0,
        line.len() > 0,
        first_at(text::lowercase(line), key, 0) >= 0,
        ({
            let after = covering(line, first_at(text::lowercase(line), key, 0) + key.len());
            after < line.len() && line[after] == '='
        }),
    ensures
        ({
            let after = covering(line, first_at(text::lowercase(line), key, 0) + key.len());
            let front = line.take(after + 1) + "[redacted]"@;
            let rest = line.skip(value_end(line, after + 1));
            &&& masked(line, seq![key]) == masked_from(front + rest, key, front.len() as int)
            &&& masked(line, seq![key]).take(front.len() as int) == front
        }),
{
    assert(line.skip(0) =~= line);
    let found = first_at(text::lowercase(line), key, 0);
    lemma_covering(line, found + key.len());
    let after = covering(line, found + key.len());
    lemma_value_end(line, after + 1);
    let front = line.take(after + 1) + "[redacted]"@;
    let rest = line.skip(value_end(line, after + 1));
    assert(seq![key].drop_last() =~= Seq::<Seq<char>>::empty());
    assert(masked(line, Seq::<Seq<char>>::empty()) == line);
    law_masked_keeps_front(front + rest, key, front.len() as int);
    assert((front + rest).take(front.len() as int) =~= front);
}

/// A line in which none of the keys occurs, without regard to case, is not changed.
pub proof fn law_mask_unmatched(line: Seq<char>, keys: Seq<Seq<char>>)
    requires
        forall|i: int|
            0 <= i < keys.len() ==> first_at(text::lowercase(line), #[trigger] keys[i], 0) < 0,
    ensures
        masked(line, keys) == line,
    decreases keys.len(),
{
    if keys.len() > 0 {
        let shorter = keys.drop_last();
        assert forall|i: int| 0 <= i < shorter.len() implies first_at(
            text::lowercase(line),
            #[trigger] shorter[i],
            0,
        ) < 0 by {
            assert(shorter[i] == keys[i]);
        }
        law_mask_unmatched(line, shorter);
        assert(keys.last() == keys[keys.len() - 1]);
        assert(line.skip(0) =~= line);
    }
}

/// Whether `key=`, in whatever case, stands in `line` at position `at`.
pub open spec fn shows(line: Seq<char>, key: Seq<char>, at: int) -> bool {
    &&& 0 <= at
    &&& at + key.len() < line.len()
    &&& text::is_at(text::ascii_lowered(line), at, key)
    &&& line[at + key.len()] == '='
}

/// Whether `[redacted]` stands in `line` at position `at`.
pub open spec fn is_redacted(line: Seq<char>, at: int) -> bool {
    text::is_at(line, at, "[redacted]"@)
}

/// Whether `line` shows no value of `key`: behind every `key=` stands `[redacted]`.
pub open spec fn shows_no_value(line: Seq<char>, key: Seq<char>) -> bool {
    forall|at: int| #[trigger] shows(line, key, at) ==> is_redacted(line, at + key.len() + 1)
}

/// Whether no end of `key` is also its beginning, so that two occurrences of it never
/// overlap.
pub open spec fn never_overlaps(key: Seq<char>) -> bool {
    forall|d: int| 0 < d < key.len() ==> #[trigger] key.skip(d) != key.take(key.len() - d)
}

/// Whether `key` is a name that masking finds wherever it stands: ASCII in lower case,
/// without `]`, and never overlapping itself.
pub open spec fn is_plain_name(key: Seq<char>) -> bool {
    &&& key.len() > 0
    &&& text::is_ascii(key)
    &&& text::ascii_lowered(key) == key
    &&& !key.contains(']')
    &&& never_overlaps(key)
}

/// Whether masking `key` is done with what lies before `from`: every `key=` there is
/// followed by `[redacted]`, and none reaches across `from`.
spec fn done_before(line: Seq<char>, key: Seq<char>, from: int) -> bool {
    &&& forall|at: int|
        #[trigger] shows(line, key, at) && at + key.len() < from ==> is_redacted(
            line,
            at + key.len() + 1,
        )
    &&& forall|at: int| #[trigger] shows(line, key, at) && at < from ==> at + key.len() < from
}

/// The first place at which a pattern stands is not behind any other.
pub proof fn lemma_first_at(s: Seq<char>, pattern: Seq<char>, from: int, at: int)
    requires
        0 <= from <= at,
        text::is_at(s, at, pattern),
    ensures
        from <= first_at(s, pattern, from) <= at,
    decreases at - from,
{
    if !text::is_at(s, from, pattern) {
        lemma_first_at(s, pattern, from + 1, at);
    }
}

/// Where the search finds something, it stands there.
pub proof fn lemma_first_at_holds(s: Seq<char>, pattern: Seq<char>, from: int)
    requires
        0 <= from,
        first_at(s, pattern, from) >= 0,
    ensures
        text::is_at(s, first_at(s, pattern, from), pattern),
        first_at(s, pattern, from) >= from,
    decreases s.len() - from,
{
    if !text::is_at(s, from, pattern) && from < s.len() {
        lemma_first_at_holds(s, pattern, from + 1);
    }
}

/// ASCII characters are as wide in lower case as they were.
pub proof fn lemma_covering_ascii(s: Seq<char>, width: int)
    requires
        text::is_ascii(s),
        0 <= width <= s.len(),
    ensures
        covering(s, width) == width,
    decreases s.len(),
{
    if width > 0 {
        assert forall|i: int| 0 <= i < s.skip(1).len() implies #[trigger] s.skip(1)[i]
            <= '\u{7f}' by {
            assert(s.skip(1)[i] == s[i + 1]);
        }
        assert(s[0] <= '\u{7f}');
        lemma_covering_ascii(s.skip(1), width - 1);
    }
}

/// What `[redacted]` is made of.
pub proof fn lemma_redacted()
    ensures
        "[redacted]"@.len() == 10,
        "[redacted]"@[9] == ']',
        !"[redacted]"@.contains('='),
        text::is_ascii("[redacted]"@),
        forall|i: int|
            0 <= i < 10 ==> !text::is_white(#[trigger] "[redacted]"@[i]) && "[redacted]"@[i] != '"',
{
    reveal_strlit("[redacted]");
}

/// A character of `[redacted]` where it stands in a line.
pub proof fn lemma_redacted_at(line: Seq<char>, at: int, i: int)
    requires
        is_redacted(line, at),
        at <= i < at + 10,
    ensures
        line[i] == "[redacted]"@[i - at],
        line[i] != '=',
{
    lemma_redacted();
    assert(line.subrange(at, at + 10)[i - at] == line[i]);
    assert("[redacted]"@.contains("[redacted]"@[i - at]));
}

/// The line after one value has been replaced.
pub open spec fn replaced_value(line: Seq<char>, start: int) -> Seq<char> {
    line.take(start) + "[redacted]"@ + line.skip(value_end(line, start))
}

/// The same text stands at the same place in a line that agrees up to there.
pub proof fn lemma_same_front(a: Seq<char>, b: Seq<char>, upto: int, pattern: Seq<char>, at: int)
    requires
        0 <= upto <= a.len(),
        upto <= b.len(),
        a.take(upto) == b.take(upto),
        0 <= at,
        at + pattern.len() <= upto,
    ensures
        text::is_at(a, at, pattern) == text::is_at(b, at, pattern),
        text::is_at(text::ascii_lowered(a), at, pattern) == text::is_at(
            text::ascii_lowered(b),
            at,
            pattern,
        ),
{
    assert forall|i: int| 0 <= i < upto implies a[i] == b[i] by {
        assert(a.take(upto)[i] == a[i]);
        assert(b.take(upto)[i] == b[i]);
    }
    assert(a.subrange(at, at + pattern.len()) =~= b.subrange(at, at + pattern.len()));
    assert(text::ascii_lowered(a).subrange(at, at + pattern.len()) =~= text::ascii_lowered(
        b,
    ).subrange(at, at + pattern.len()));
}

/// The same text stands at the shifted place in a line that agrees from there on.
pub proof fn lemma_same_back(
    a: Seq<char>,
    a_from: int,
    b: Seq<char>,
    b_from: int,
    pattern: Seq<char>,
    at: int,
)
    requires
        0 <= a_from <= a.len(),
        0 <= b_from <= b.len(),
        a.skip(a_from) == b.skip(b_from),
        a_from <= at,
        at + pattern.len() <= a.len(),
    ensures
        text::is_at(a, at, pattern) == text::is_at(b, at - a_from + b_from, pattern),
        text::is_at(text::ascii_lowered(a), at, pattern) == text::is_at(
            text::ascii_lowered(b),
            at - a_from + b_from,
            pattern,
        ),
{
    let shift = b_from - a_from;
    assert(a.len() - a_from == b.len() - b_from) by {
        assert(a.skip(a_from).len() == a.len() - a_from);
        assert(b.skip(b_from).len() == b.len() - b_from);
    }
    assert forall|i: int| a_from <= i < a.len() implies a[i] == b[i + shift] by {
        assert(a.skip(a_from)[i - a_from] == a[i]);
        assert(b.skip(b_from)[i - a_from] == b[i + shift]);
    }
    assert(a.subrange(at, at + pattern.len()) =~= b.subrange(
        at + shift,
        at + shift + pattern.len(),
    ));
    assert(text::ascii_lowered(a).subrange(at, at + pattern.len()) =~= text::ascii_lowered(
        b,
    ).subrange(at + shift, at + shift + pattern.len()));
}

/// A name without `]` does not reach into the line behind a `[redacted]`.
pub proof fn lemma_no_straddle(line: Seq<char>, key: Seq<char>, at: int, bracket: int)
    requires
        !key.contains(']'),
        text::is_at(text::ascii_lowered(line), at, key),
        line[bracket] == ']',
    ensures
        bracket < at || at + key.len() <= bracket,
{
    if at <= bracket < at + key.len() {
        assert(text::ascii_lowered(line).subrange(at, at + key.len())[bracket - at]
            == text::ascii_lowered(line)[bracket]);
        assert(key[bracket - at] == ']');
        assert(key.contains(key[bracket - at]));
    }
}

/// Replacing a value, whatever the key it belongs to, brings no value of `key` to light.
proof fn lemma_replacing_keeps(line: Seq<char>, key: Seq<char>, start: int)
    requires
        key.len() > 0,
        !key.contains(']'),
        shows_no_value(line, key),
        0 < start <= line.len(),
        line[start - 1] == '=',
    ensures
        shows_no_value(replaced_value(line, start), key),
{
    lemma_redacted();
    lemma_value_end(line, start);
    let end = value_end(line, start);
    let out = replaced_value(line, start);
    let n = key.len() as int;
    assert(out.take(start) =~= line.take(start));
    assert(out.skip(start + 10) =~= line.skip(end));
    assert(out.subrange(start, start + 10) =~= "[redacted]"@);
    assert(is_redacted(out, start));
    assert forall|at: int| #[trigger] shows(out, key, at) implies is_redacted(
        out,
        at + key.len() + 1,
    ) by {
        let eq = at + n;
        if eq < start {
            lemma_same_front(out, line, start, key, at);
            assert(out.take(start)[eq] == line.take(start)[eq]);
            assert(shows(line, key, at));
            if eq + 1 < start {
                assert(is_redacted(line, eq + 1));
                if start < eq + 11 {
                    lemma_redacted_at(line, eq + 1, start - 1);
                }
                lemma_same_front(line, out, start, "[redacted]"@, eq + 1);
            }
        } else if eq < start + 10 {
            lemma_redacted_at(out, start, eq);
        } else if at < start + 10 {
            assert(out[start + 9] == "[redacted]"@[9]) by {
                assert(out.subrange(start, start + 10)[9] == out[start + 9]);
            }
            lemma_no_straddle(out, key, at, start + 9);
        } else {
            let there = at - (start + 10) + end;
            lemma_same_back(out, start + 10, line, end, key, at);
            assert(out.skip(start + 10)[eq - (start + 10)] == line.skip(end)[eq - (start + 10)]);
            assert(shows(line, key, there));
            assert(is_redacted(line, there + n + 1));
            lemma_same_back(line, end, out, start + 10, "[redacted]"@, there + n + 1);
        }
    }
}

/// Masking another key brings no value of `key` to light.
proof fn lemma_masking_keeps(line: Seq<char>, other: Seq<char>, from: int, key: Seq<char>)
    requires
        key.len() > 0,
        !key.contains(']'),
        other.len() > 0,
        0 <= from,
        shows_no_value(line, key),
        text::is_ascii(line),
    ensures
        shows_no_value(masked_from(line, other, from), key),
        text::is_ascii(masked_from(line, other, from)),
    decreases line.len() - from,
{
    if from < line.len() {
        let rest = line.skip(from);
        let found = first_at(text::lowercase(rest), other, 0);
        if found >= 0 {
            lemma_covering(rest, found + other.len());
            let after = from + covering(rest, found + other.len());
            if after < line.len() && line[after] == '=' {
                lemma_value_end(line, after + 1);
                lemma_replacing_keeps(line, key, after + 1);
                let out = replaced_value(line, after + 1);
                lemma_replaced_is_ascii(line, after + 1);
                lemma_masking_keeps(out, other, after + 1 + "[redacted]"@.len(), key);
            } else {
                lemma_masking_keeps(line, other, after, key);
            }
        }
    }
}

/// Replacing a value leaves ASCII text ASCII.
pub proof fn lemma_replaced_is_ascii(line: Seq<char>, start: int)
    requires
        text::is_ascii(line),
        0 <= start <= line.len(),
    ensures
        text::is_ascii(replaced_value(line, start)),
{
    lemma_redacted();
    lemma_value_end(line, start);
    let end = value_end(line, start);
    let out = replaced_value(line, start);
    assert forall|i: int| 0 <= i < out.len() implies #[trigger] out[i] <= '\u{7f}' by {
        if i < start {
            assert(out[i] == line[i]);
        } else if i < start + 10 {
            assert(out[i] == "[redacted]"@[i - start]);
        } else {
            assert(out[i] == line[i - (start + 10) + end]);
        }
    }
}

/// Masking a key from `from` on, where what lies before is done, leaves no value of it.
proof fn lemma_masking_finds(line: Seq<char>, key: Seq<char>, from: int)
    requires
        is_plain_name(key),
        0 <= from,
        text::is_ascii(line),
        done_before(line, key, from),
    ensures
        shows_no_value(masked_from(line, key, from), key),
        text::is_ascii(masked_from(line, key, from)),
    decreases line.len() - from,
{
    let n = key.len() as int;
    if from >= line.len() {
        assert(shows_no_value(line, key));
    } else {
        let rest = line.skip(from);
        assert(text::is_ascii(rest)) by {
            assert forall|i: int| 0 <= i < rest.len() implies #[trigger] rest[i] <= '\u{7f}' by {
                assert(rest[i] == line[i + from]);
            }
        }
        let lowered = text::ascii_lowered(rest);
        assert(text::lowercase(rest) == lowered);
        let found = first_at(lowered, key, 0);
        assert forall|at: int| #[trigger] shows(line, key, at) && at >= from implies 0 <= found
            <= at - from by {
            assert(rest.skip(0) =~= line.skip(from));
            lemma_same_back(line, from, rest, 0, key, at);
            lemma_first_at(lowered, key, 0, at - from);
        }
        if found < 0 {
            assert forall|at: int| #[trigger] shows(line, key, at) implies is_redacted(
                line,
                at + key.len() + 1,
            ) by {
                assert(at < from);
            }
        } else {
            lemma_first_at_holds(lowered, key, 0);
            assert(lowered.len() == rest.len());
            lemma_covering_ascii(rest, found + n);
            let place = from + found;
            let after = place + n;
            if after < line.len() && line[after] == '=' {
                lemma_masking_step(line, key, from, place);
                lemma_redacted();
                lemma_value_end(line, after + 1);
                lemma_replaced_is_ascii(line, after + 1);
                lemma_masking_finds(replaced_value(line, after + 1), key, after + 11);
            } else {
                assert(done_before(line, key, after)) by {
                    assert forall|at: int| #[trigger] shows(line, key, at) && at + n
                        < after implies is_redacted(line, at + key.len() + 1) by {
                        assert(at < from);
                    }
                    assert forall|at: int| #[trigger] shows(line, key, at) && at < after implies at
                        + n < after by {
                        if at >= from && at + n >= after {
                            if at > place {
                                assert(text::ascii_lowered(line).skip(from) =~= lowered);
                                lemma_overlap(text::ascii_lowered(line), key, place, at, from, rest);
                            }
                        }
                    }
                }
                lemma_masking_finds(line, key, after);
            }
        }
    }
}

/// Two occurrences of a name that never overlaps itself do not overlap.
proof fn lemma_overlap(
    lowered_line: Seq<char>,
    key: Seq<char>,
    a: int,
    b: int,
    from: int,
    rest: Seq<char>,
)
    requires
        never_overlaps(key),
        0 <= from <= a < b,
        text::is_at(text::ascii_lowered(rest), a - from, key),
        text::is_at(lowered_line, b, key),
        from <= lowered_line.len(),
        lowered_line.skip(from) == text::ascii_lowered(rest),
    ensures
        a + key.len() <= b,
{
    let n = key.len() as int;
    let d = b - a;
    let lowered_rest = text::ascii_lowered(rest);
    if d < n {
        assert forall|i: int| 0 <= i < n - d implies key.skip(d)[i] == key.take(n - d)[i] by {
            assert(lowered_rest.subrange(a - from, a - from + n)[d + i] == lowered_rest[b - from
                + i]);
            assert(lowered_line.skip(from)[b - from + i] == lowered_line[b + i]);
            assert(lowered_line.subrange(b, b + n)[i] == lowered_line[b + i]);
        }
        assert(key.skip(d) =~= key.take(n - d));
    }
}

/// One value replaced: what lies before the place behind it is done.
proof fn lemma_masking_step(line: Seq<char>, key: Seq<char>, from: int, place: int)
    requires
        is_plain_name(key),
        done_before(line, key, from),
        0 <= from <= place,
        place + key.len() < line.len(),
        line[place + key.len()] == '=',
        forall|at: int| #[trigger] shows(line, key, at) && at >= from ==> place <= at,
    ensures
        done_before(
            replaced_value(line, place + key.len() + 1),
            key,
            place + key.len() + 11,
        ),
{
    let n = key.len() as int;
    let after = place + n;
    let start = after + 1;
    lemma_redacted();
    lemma_value_end(line, start);
    let out = replaced_value(line, start);
    assert(out.take(start) =~= line.take(start));
    assert(out.subrange(start, start + 10) =~= "[redacted]"@);
    assert(is_redacted(out, start));
    assert forall|at: int| #[trigger] shows(out, key, at) && at + n < start + 10 implies is_redacted(
        out,
        at + key.len() + 1,
    ) by {
        let eq = at + n;
        if eq < start {
            lemma_same_front(out, line, start, key, at);
            assert(out.take(start)[eq] == line.take(start)[eq]);
            assert(shows(line, key, at));
            if eq < after {
                assert(at < from);
                assert(is_redacted(line, eq + 1));
                if after < eq + 11 {
                    lemma_redacted_at(line, eq + 1, after);
                }
                lemma_same_front(line, out, start, "[redacted]"@, eq + 1);
            }
        } else {
            lemma_redacted_at(out, start, eq);
        }
    }
    assert forall|at: int| #[trigger] shows(out, key, at) && at < start + 10 implies at + n < start
        + 10 by {
        if at + n >= start + 10 {
            assert(out[start + 9] == "[redacted]"@[9]) by {
                assert(out.subrange(start, start + 10)[9] == out[start + 9]);
            }
            lemma_no_straddle(out, key, at, start + 9);
        }
    }
}

/// Redaction leaves no value: in an ASCII line, behind every `key=` of every configured
/// key, in whatever case it is written, stands `[redacted]`.
pub proof fn law_no_value_survives(line: Seq<char>, keys: Seq<Seq<char>>)
    requires
        text::is_ascii(line),
        forall|i: int| 0 <= i < keys.len() ==> is_plain_name(#[trigger] keys[i]),
    ensures
        forall|i: int|
            0 <= i < keys.len() ==> shows_no_value(masked(line, keys), #[trigger] keys[i]),
        text::is_ascii(masked(line, keys)),
    decreases keys.len(),
{
    if keys.len() > 0 {
        let shorter = keys.drop_last();
        let last = keys.last();
        assert forall|i: int| 0 <= i < shorter.len() implies is_plain_name(
            #[trigger] shorter[i],
        ) by {
            assert(shorter[i] == keys[i]);
        }
        law_no_value_survives(line, shorter);
        let before = masked(line, shorter);
        assert(is_plain_name(keys[keys.len() - 1]));
        lemma_masking_finds(before, last, 0);
        assert forall|i: int| 0 <= i < keys.len() implies shows_no_value(
            masked(line, keys),
            #[trigger] keys[i],
        ) by {
            if i < shorter.len() {
                assert(shorter[i] == keys[i]);
                lemma_masking_keeps(before, last, 0, keys[i]);
            }
        }
    }
}

/// Where `pattern` first stands in `s`.
fn find(s: &Vec<char>, pattern: &Vec<char>) -> (at: Option<usize>)
    ensures
        match at {
            Some(i) => i == first_at(s@, pattern@, 0) && i + pattern.len() <= s.len(),
            None => first_at(s@, pattern@, 0) == -1,
        },
{
    let mut i: usize = 0;
    while i < s.len()
        invariant
            i <= s.len(),
            first_at(s@, pattern@, 0) == first_at(s@, pattern@, i as int),
        decreases s.len() - i,
    {
        if occurs_at(s, i, pattern) {
            return Some(i);
        }
        i = i + 1;
    }
    if occurs_at(s, i, pattern) {
        Some(i)
    } else {
        None
    }
}

/// How many characters of `s` from `from` on fill `width` characters in lower case.
fn cover(s: &Vec<char>, from: usize, width: usize) -> (count: usize)
    requires
        from <= s.len(),
    ensures
        count == covering(s@.skip(from as int), width as int),
        from + count <= s@.len(),
{
    let mut left: usize = width;
    let mut i: usize = from;
    while i < s.len() && left > 0
        invariant
            from <= i <= s.len(),
            covering(s@.skip(from as int), width as int) == (i - from) + covering(
                s@.skip(i as int),
                left as int,
            ),
        decreases s.len() - i,
    {
        let lower: String = char_to_lowercase(s[i]);
        let width: usize = chars_of(lower.as_str()).len();
        proof {
            assert(s@.skip(i as int).skip(1) =~= s@.skip(i + 1));
            if left <= lower@.len() {
                assert(covering(s@.skip(i + 1), left - lower@.len()) == 0);
                assert(covering(s@.skip(i + 1), 0) == 0);
            }
        }
        left = if width < left {
            left - width
        } else {
            0
        };
        i = i + 1;
    }
    i - from
}

/// Where the value that begins at `start` ends.
fn find_value_end(s: &Vec<char>, start: usize) -> (end: usize)
    requires
        start <= s.len(),
    ensures
        end == value_end(s@, start as int),
        start <= end <= s@.len(),
{
    proof {
        lemma_value_end(s@, start as int);
    }
    if start < s.len() && s[start] == '"' {
        let mut i: usize = start + 1;
        while i < s.len() && s[i] != '"'
            invariant
                start < i <= s.len(),
                char_from(s@, '"', start + 1) == char_from(s@, '"', i as int),
            decreases s.len() - i,
        {
            i = i + 1;
        }
        if i < s.len() {
            i + 1
        } else {
            i
        }
    } else {
        let mut i: usize = start;
        while i < s.len() && !is_whitespace(s[i])
            invariant
                start <= i <= s.len(),
                white_from(s@, start as int) == white_from(s@, i as int),
            decreases s.len() - i,
        {
            i = i + 1;
        }
        i
    }
}

/// Mask the values of one key.
fn mask_key(line: Vec<char>, key: &Vec<char>) -> (out: Vec<char>)
    requires
        key@.len() > 0,
    ensures
        out@ == masked_from(line@, key@, 0),
{
    let redacted: Vec<char> = chars_of("[redacted]");
    let mut out: Vec<char> = line;
    let mut from: usize = 0;
    while from < out.len()
        invariant
            key@.len() > 0,
            redacted@ == "[redacted]"@,
            masked_from(line@, key@, 0) == masked_from(out@, key@, from as int),
        decreases out@.len() - from,
    {
        let ghost rest = out@.skip(from as int);
        let tail: String = string_between(&out, from, out.len());
        proof {
            assert(tail@ =~= rest);
        }
        let lower: Vec<char> = chars_of(to_lowercase(tail.as_str()).as_str());
        match find(&lower, key) {
            None => {
                return out;
            },
            Some(found) => {
                proof {
                    lemma_covering(rest, found + key@.len());
                }
                let after: usize = from + cover(&out, from, found + key.len());
                if after < out.len() && out[after] == '=' {
                    let start: usize = after + 1;
                    let end: usize = find_value_end(&out, start);
                    let ghost before = out@;
                    let mut value: Vec<char> = out.split_off(start);
                    let mut suffix: Vec<char> = value.split_off(end - start);
                    let mut mask: Vec<char> = redacted.clone();
                    proof {
                        assert(mask@ =~= redacted@);
                    }
                    out.append(&mut mask);
                    from = out.len();
                    out.append(&mut suffix);
                    proof {
                        assert(out@ =~= before.take(start as int) + "[redacted]"@ + before.skip(
                            end as int,
                        ));
                    }
                } else {
                    from = after;
                }
            },
        }
    }
    out
}

/// What every line of a text sink goes through: the process-wide fields in front,
/// the values of sensitive fields masked.
#[derive(Debug)]
pub struct WithGlobals {
    /// Rendered once rather than per event.
    pub prefix: String,
    /// Lower-cased field names whose values are masked.
    pub redact: Vec<String>,
}

impl WithGlobals {
    /// Replace `key=value` with `key=[redacted]` for every configured key.
    ///
    /// Works on rendered text, which bounds what it can catch: a secret that never
    /// appears as `key=value` is not masked.
    pub fn mask(&self, line: &str) -> (out: String)
        ensures
            out@ == masked(line@, text::views(self.redact@)),
    {
        let mut out: Vec<char> = chars_of(line);
        let ghost keys = text::views(self.redact@);
        let mut i: usize = 0;
        while i < self.redact.len()
            invariant
                i <= self.redact.len(),
                keys == text::views(self.redact@),
                out@ == masked(line@, keys.take(i as int)),
            decreases self.redact.len() - i,
        {
            let key: Vec<char> = chars_of(self.redact[i].as_str());
            proof {
                assert(keys.take(i + 1).drop_last() =~= keys.take(i as int));
                assert(keys[i as int] == self.redact@[i as int]@);
            }
            if key.len() > 0 {
                out = mask_key(out, &key);
            }
            i = i + 1;
        }
        proof {
            assert(keys.take(i as int) =~= keys);
        }
        string_of(&out)
    }

    /// The line for what the inner formatter rendered.
    ///
    /// An empty prefix adds nothing at all, not even a leading space. The mask is
    /// applied to the rendered text, never to the prefix.
    pub fn format_event(&self, rendered: &str) -> (line: String)
        ensures
            line@ == (if self.prefix@.len() == 0 {
                Seq::empty()
            } else {
                self.prefix@ + " "@
            }) + masked(rendered@, text::views(self.redact@)),
    {
        let mut line: String = String::new();
        if !self.prefix.as_str().is_empty() {
            line.append(self.prefix.as_str());
            line.append(" ");
        }
        line.append(self.mask(rendered).as_str());
        line
    }
}

} // verus!
