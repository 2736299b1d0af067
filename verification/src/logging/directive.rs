//! Where the parser of filter directives cuts a text.
//!
//! The parser walks over each comma-separated directive without the white space around
//! it, and cuts the directive with that white space at the byte positions it counted.
//! Where a directive begins with white space, such a position may fall inside a character,
//! and the parser panics there.

use vstd::prelude::*;

use crate::text::{self, is_whitespace};

verus! {

/// Where in a directive the parser stands.
#[derive(Debug, Clone, Copy, PartialEq, Eq, Structural)]
pub enum Place {
    /// In the white space before the directive.
    Lead,
    /// In what is a level or a target.
    Name,
    /// In the name of a span, behind `[`.
    Span,
    /// In a field of a span, behind `{`.
    Field,
    /// Behind the fields of a span.
    Fields,
    /// Behind a span.
    Target,
    /// In white space behind a span.
    Gap,
    /// In the level, behind `=`.
    Level,
    /// Behind something that is no directive: the parser has stopped.
    Failed,
}

/// The parser on its way: its place, and the positions of the characters at which the
/// directive begins, at which it begins without white space, and at which the next piece
/// to be cut out begins.
#[derive(Debug, Clone, Copy, PartialEq, Eq, Structural)]
pub struct Walk {
    /// The place.
    pub place: Place,
    /// Where the directive begins.
    pub part: usize,
    /// Where it begins without white space.
    pub start: usize,
    /// Where the piece begins.
    pub mark: usize,
}

/// How many bytes a character takes.
pub open spec fn width(c: char) -> int {
    if c as u32 <= 0x7F {
        1
    } else if c as u32 <= 0x7FF {
        2
    } else if c as u32 <= 0xFFFF {
        3
    } else {
        4
    }
}

/// How many bytes the characters from `from` to `to` take.
pub open spec fn bytes(d: Seq<char>, from: int, to: int) -> int
    decreases to - from,
{
    if to <= from {
        0
    } else {
        bytes(d, from, to - 1) + width(d[to - 1])
    }
}

/// Whether a cut meant for the character at `at` falls between two characters: as many
/// bytes from the beginning of the directive as the character is from its beginning
/// without white space.
pub open spec fn fits(d: Seq<char>, walk: Walk, at: int) -> bool {
    exists|k: int|
        walk.part <= k <= at && #[trigger] bytes(d, walk.part as int, k) == bytes(
            d,
            walk.start as int,
            at,
        )
}

/// The walk at another place.
pub open spec fn at_place(walk: Walk, place: Place) -> Walk {
    Walk { place, ..walk }
}

/// The walk with a piece to be cut out that begins behind `at`.
pub open spec fn marked(walk: Walk, place: Place, at: int) -> Walk {
    Walk { place, mark: (at + 1) as usize, ..walk }
}

/// The walk before the directive that begins behind `at`.
pub open spec fn next_part(at: int) -> Walk {
    Walk { place: Place::Lead, part: (at + 1) as usize, start: (at + 1) as usize, mark: 0 }
}

/// The walk behind the character at `at`, or `None` where the parser cuts inside a
/// character there.
pub open spec fn step(d: Seq<char>, at: int, walk: Walk) -> Option<Walk> {
    let c = d[at];
    let when = |fit: bool, next: Walk|
        if fit {
            Some(next)
        } else {
            None
        };
    match walk.place {
        Place::Lead => Some(
            if c == ',' {
                if at == walk.part {
                    next_part(at)
                } else {
                    at_place(walk, Place::Failed)
                }
            } else if text::is_white(c) {
                walk
            } else if c == '[' {
                marked(Walk { start: at as usize, ..walk }, Place::Span, at)
            } else {
                Walk { place: Place::Name, start: at as usize, ..walk }
            },
        ),
        Place::Name => if c == '=' {
            when(fits(d, walk, at) && fits(d, walk, at + 1), at_place(walk, Place::Level))
        } else if c == '[' {
            when(fits(d, walk, at), marked(walk, Place::Span, at))
        } else if c == ',' {
            Some(next_part(at))
        } else {
            Some(walk)
        },
        Place::Span => if c == ']' {
            when(fits(d, walk, walk.mark as int) && fits(d, walk, at), at_place(walk, Place::Target))
        } else if c == '{' {
            when(
                fits(d, walk, walk.mark as int) && fits(d, walk, at),
                marked(walk, Place::Field, at),
            )
        } else if c == ',' {
            Some(at_place(walk, Place::Failed))
        } else {
            Some(walk)
        },
        Place::Field => if c == '}' {
            when(
                fits(d, walk, walk.mark as int) && fits(d, walk, at),
                at_place(
                    walk,
                    if walk.mark == at {
                        Place::Failed
                    } else {
                        Place::Fields
                    },
                ),
            )
        } else if c == ',' {
            Some(at_place(walk, Place::Failed))
        } else {
            Some(walk)
        },
        Place::Fields => Some(
            at_place(
                walk,
                if c == ']' {
                    Place::Target
                } else {
                    Place::Failed
                },
            ),
        ),
        Place::Target => if c == '=' {
            when(fits(d, walk, at + 1), at_place(walk, Place::Level))
        } else if c == ',' {
            Some(next_part(at))
        } else if text::is_white(c) {
            Some(at_place(walk, Place::Gap))
        } else {
            Some(at_place(walk, Place::Failed))
        },
        Place::Gap => if c == ',' {
            Some(next_part(at))
        } else if text::is_white(c) {
            Some(walk)
        } else {
            Some(at_place(walk, Place::Failed))
        },
        Place::Level => if c == ',' {
            Some(next_part(at))
        } else {
            Some(walk)
        },
        Place::Failed => Some(walk),
    }
}

/// The first character from `at` on at which the parser cuts inside a character, or the
/// length.
pub open spec fn first_cut(d: Seq<char>, at: int, walk: Walk) -> int
    decreases d.len() - at,
{
    if at >= d.len() {
        d.len() as int
    } else {
        match step(d, at, walk) {
            Some(next) => first_cut(d, at + 1, next),
            None => at,
        }
    }
}

/// The parser before it has read anything.
pub open spec fn beginning() -> Walk {
    Walk { place: Place::Lead, part: 0, start: 0, mark: 0 }
}

/// Whether the parser never cuts inside a character.
pub open spec fn is_readable(d: Seq<char>) -> bool {
    first_cut(d, 0, beginning()) == d.len()
}

/// What lies before the first character at which the parser cuts inside a character.
pub open spec fn readable_front(d: Seq<char>) -> Seq<char> {
    d.take(first_cut(d, 0, beginning()))
}

/// Whether the positions of a walk that has come to `at` lie behind it, and the piece to be
/// cut out lies in the directive.
spec fn is_behind(walk: Walk, at: int) -> bool {
    &&& walk.part <= at && walk.start <= at && walk.mark <= at
    &&& walk.place is Span || walk.place is Field ==> walk.part <= walk.mark && walk.start
        <= walk.mark
}

/// A longer stretch takes no fewer bytes, and none takes more than four a character.
proof fn lemma_bytes(d: Seq<char>, from: int, a: int, b: int)
    requires
        from <= a <= b,
    ensures
        0 <= bytes(d, from, a) <= bytes(d, from, b) <= 4 * (b - from),
    decreases b - from,
{
    if from < b {
        if a < b {
            lemma_bytes(d, from, a, b - 1);
        } else {
            lemma_bytes(d, from, a - 1, b - 1);
        }
    }
}

/// The bytes of a stretch do not depend on what follows it.
proof fn lemma_bytes_front(d: Seq<char>, n: int, from: int, to: int)
    requires
        0 <= from,
        to <= n <= d.len(),
    ensures
        bytes(d.take(n), from, to) == bytes(d, from, to),
    decreases to - from,
{
    if from < to {
        lemma_bytes_front(d, n, from, to - 1);
    }
}

/// Whether a cut fits does not depend on what follows it.
proof fn lemma_fits_front(d: Seq<char>, n: int, walk: Walk, at: int)
    requires
        at <= n <= d.len(),
    ensures
        fits(d.take(n), walk, at) == fits(d, walk, at),
{
    let e = d.take(n);
    let part = walk.part as int;
    lemma_bytes_front(d, n, walk.start as int, at);
    assert forall|k: int| k <= at implies #[trigger] bytes(e, part, k) == bytes(d, part, k) by {
        lemma_bytes_front(d, n, part, k);
    }
    if fits(d, walk, at) {
        let k = choose|k: int|
            part <= k <= at && #[trigger] bytes(d, part, k) == bytes(d, walk.start as int, at);
        assert(bytes(e, part, k) == bytes(e, walk.start as int, at));
    }
}

/// The parser does not look ahead.
proof fn lemma_first_cut_front(d: Seq<char>, n: int, at: int, walk: Walk)
    requires
        0 <= at <= n,
        n <= d.len() <= usize::MAX,
        n == first_cut(d, at, walk),
        is_behind(walk, at),
    ensures
        first_cut(d.take(n), at, walk) == n,
    decreases n - at,
{
    if at < n {
        lemma_fits_front(d, n, walk, at);
        lemma_fits_front(d, n, walk, at + 1);
        lemma_fits_front(d, n, walk, walk.mark as int);
        assert(step(d.take(n), at, walk) == step(d, at, walk));
        let next = step(d, at, walk)->0;
        assert(is_behind(next, at + 1));
        lemma_first_cut_front(d, n, at + 1, next);
    }
}

/// The first cut lies in the text or at its end.
proof fn lemma_first_cut(d: Seq<char>, at: int, walk: Walk)
    requires
        0 <= at <= d.len(),
    ensures
        at <= first_cut(d, at, walk) <= d.len(),
    decreases d.len() - at,
{
    if at < d.len() && step(d, at, walk) is Some {
        lemma_first_cut(d, at + 1, step(d, at, walk)->0);
    }
}

/// The front that the parser cuts rightly is readable by itself.
pub proof fn lemma_front_is_readable(d: Seq<char>)
    requires
        d.len() <= usize::MAX,
    ensures
        is_readable(readable_front(d)),
        0 <= first_cut(d, 0, beginning()) <= d.len(),
{
    lemma_first_cut(d, 0, beginning());
    lemma_first_cut_front(d, first_cut(d, 0, beginning()), 0, beginning());
}

/// How many bytes a character takes.
fn char_width(c: char) -> (w: u128)
    ensures
        w == width(c),
{
    let u: u32 = c as u32;
    if u <= 0x7F {
        1
    } else if u <= 0x7FF {
        2
    } else if u <= 0xFFFF {
        3
    } else {
        4
    }
}

/// How many bytes the characters from `from` to `to` take.
fn count_bytes(d: &Vec<char>, from: usize, to: usize) -> (n: u128)
    requires
        from <= to <= d.len(),
    ensures
        n == bytes(d@, from as int, to as int),
{
    let mut n: u128 = 0;
    let mut i: usize = from;
    while i < to
        invariant
            from <= i <= to <= d.len(),
            n == bytes(d@, from as int, i as int),
        decreases to - i,
    {
        proof {
            lemma_bytes(d@, from as int, i as int, i as int);
        }
        n = n + char_width(d[i]);
        i = i + 1;
    }
    n
}

/// Whether a cut meant for the character at `at` falls between two characters.
fn cut_fits(d: &Vec<char>, walk: &Walk, at: usize) -> (r: bool)
    requires
        walk.part <= at,
        walk.start <= at <= d.len(),
    ensures
        r == fits(d@, *walk, at as int),
{
    let part: usize = walk.part;
    let target: u128 = count_bytes(d, walk.start, at);
    let mut n: u128 = 0;
    let mut k: usize = part;
    while k < at && n < target
        invariant
            part <= k <= at <= d.len(),
            n == bytes(d@, part as int, k as int),
            forall|j: int| part <= j < k ==> #[trigger] bytes(d@, part as int, j) < target,
        decreases at - k,
    {
        proof {
            lemma_bytes(d@, part as int, k as int, k as int);
        }
        n = n + char_width(d[k]);
        k = k + 1;
    }
    proof {
        if n == target {
            assert(bytes(d@, part as int, k as int) == target);
        } else {
            assert forall|j: int| part <= j <= at implies #[trigger] bytes(d@, part as int, j)
                != target by {
                if j >= k {
                    lemma_bytes(d@, part as int, k as int, j);
                }
            }
        }
    }
    n == target
}

/// Whether the cuts at both ends of the piece that ends at `at` fit.
fn piece_fits(d: &Vec<char>, walk: &Walk, at: usize) -> (r: bool)
    requires
        walk.part <= at,
        walk.start <= at <= d.len(),
        walk.part <= walk.mark,
        walk.start <= walk.mark <= at,
    ensures
        r == (fits(d@, *walk, walk.mark as int) && fits(d@, *walk, at as int)),
{
    cut_fits(d, walk, walk.mark) && cut_fits(d, walk, at)
}

/// The walk behind the character at `at`.
fn walk_on(d: &Vec<char>, at: usize, walk: Walk) -> (next: Option<Walk>)
    requires
        at < d.len(),
        is_behind(walk, at as int),
    ensures
        next == step(d@, at as int, walk),
{
    let c: char = d[at];
    let fresh: Walk = Walk { place: Place::Lead, part: at + 1, start: at + 1, mark: 0 };
    let failed: Walk = Walk { place: Place::Failed, ..walk };
    match walk.place {
        Place::Lead => Some(
            if c == ',' {
                if at == walk.part {
                    fresh
                } else {
                    failed
                }
            } else if is_whitespace(c) {
                walk
            } else if c == '[' {
                Walk { place: Place::Span, start: at, mark: at + 1, ..walk }
            } else {
                Walk { place: Place::Name, start: at, ..walk }
            },
        ),
        Place::Name => if c == '=' {
            if cut_fits(d, &walk, at) && cut_fits(d, &walk, at + 1) {
                Some(Walk { place: Place::Level, ..walk })
            } else {
                None
            }
        } else if c == '[' {
            if cut_fits(d, &walk, at) {
                Some(Walk { place: Place::Span, mark: at + 1, ..walk })
            } else {
                None
            }
        } else if c == ',' {
            Some(fresh)
        } else {
            Some(walk)
        },
        Place::Span => if c == ']' {
            if piece_fits(d, &walk, at) {
                Some(Walk { place: Place::Target, ..walk })
            } else {
                None
            }
        } else if c == '{' {
            if piece_fits(d, &walk, at) {
                Some(Walk { place: Place::Field, mark: at + 1, ..walk })
            } else {
                None
            }
        } else if c == ',' {
            Some(failed)
        } else {
            Some(walk)
        },
        Place::Field => if c == '}' {
            if piece_fits(d, &walk, at) {
                Some(
                    if walk.mark == at {
                        failed
                    } else {
                        Walk { place: Place::Fields, ..walk }
                    },
                )
            } else {
                None
            }
        } else if c == ',' {
            Some(failed)
        } else {
            Some(walk)
        },
        Place::Fields => Some(
            if c == ']' {
                Walk { place: Place::Target, ..walk }
            } else {
                failed
            },
        ),
        Place::Target => if c == '=' {
            if cut_fits(d, &walk, at + 1) {
                Some(Walk { place: Place::Level, ..walk })
            } else {
                None
            }
        } else if c == ',' {
            Some(fresh)
        } else if is_whitespace(c) {
            Some(Walk { place: Place::Gap, ..walk })
        } else {
            Some(failed)
        },
        Place::Gap => if c == ',' {
            Some(fresh)
        } else if is_whitespace(c) {
            Some(walk)
        } else {
            Some(failed)
        },
        Place::Level => if c == ',' {
            Some(fresh)
        } else {
            Some(walk)
        },
        Place::Failed => Some(walk),
    }
}

/// The first character at which the parser cuts inside a character, or the length.
pub fn find_cut(d: &Vec<char>) -> (cut: usize)
    ensures
        cut == first_cut(d@, 0, beginning()),
        cut <= d.len(),
{
    let mut walk: Walk = Walk { place: Place::Lead, part: 0, start: 0, mark: 0 };
    let mut at: usize = 0;
    while at < d.len()
        invariant
            at <= d.len(),
            is_behind(walk, at as int),
            first_cut(d@, 0, beginning()) == first_cut(d@, at as int, walk),
        decreases d.len() - at,
    {
        match walk_on(d, at, walk) {
            Some(next) => {
                walk = next;
            },
            None => {
                return at;
            },
        }
        at = at + 1;
    }
    at
}

/// The bytes of a stretch are those of its UTF-8 form.
pub proof fn law_bytes_are_utf8(d: Seq<char>, from: int, to: int)
    requires
        0 <= from <= to <= d.len(),
    ensures
        bytes(d, from, to) == vstd::utf8::encode_utf8(d.subrange(from, to)).len(),
    decreases to - from,
{
    if from < to {
        law_bytes_are_utf8(d, from, to - 1);
        lemma_encoded_push(d.subrange(from, to - 1), d[to - 1]);
        assert(d.subrange(from, to) =~= d.subrange(from, to - 1).push(d[to - 1]));
    } else {
        assert(d.subrange(from, to) =~= Seq::<char>::empty());
    }
}

/// One character more takes its own bytes more.
proof fn lemma_encoded_push(s: Seq<char>, c: char)
    ensures
        vstd::utf8::encode_utf8(s.push(c)).len() == vstd::utf8::encode_utf8(s).len() + width(c),
    decreases s.len(),
{
    if s.len() == 0 {
        assert(s.push(c).drop_first() =~= Seq::<char>::empty());
        assert(vstd::utf8::encode_utf8(s.push(c).drop_first()).len() == 0);
        assert(vstd::utf8::encode_utf8(s).len() == 0);
        assert(s.push(c)[0] == c);
        assert(vstd::utf8::encode_scalar(c as u32).len() == width(c));
    } else {
        lemma_encoded_push(s.drop_first(), c);
        assert(s.push(c).drop_first() =~= s.drop_first().push(c));
        assert(s.push(c)[0] == s[0]);
    }
}

/// An ASCII character is a byte.
proof fn lemma_ascii_width(c: char)
    requires
        c <= '\u{7f}',
    ensures
        width(c) == 1,
{
}

/// In ASCII text a character is a byte.
proof fn lemma_ascii_bytes(d: Seq<char>, from: int, to: int)
    requires
        text::is_ascii(d),
        0 <= from <= to <= d.len(),
    ensures
        bytes(d, from, to) == to - from,
    decreases to - from,
{
    if from < to {
        lemma_ascii_bytes(d, from, to - 1);
        lemma_ascii_width(d[to - 1]);
    }
}

/// In ASCII text every cut fits.
proof fn lemma_ascii_fits(d: Seq<char>, walk: Walk, at: int)
    requires
        text::is_ascii(d),
        walk.part <= walk.start <= at <= d.len(),
    ensures
        fits(d, walk, at),
{
    let k = walk.part + (at - walk.start);
    lemma_ascii_bytes(d, walk.part as int, k);
    lemma_ascii_bytes(d, walk.start as int, at);
    assert(bytes(d, walk.part as int, k) == bytes(d, walk.start as int, at));
}

proof fn lemma_ascii_walk(d: Seq<char>, at: int, walk: Walk)
    requires
        text::is_ascii(d),
        0 <= at <= d.len() <= usize::MAX,
        is_behind(walk, at),
        walk.part <= walk.start,
    ensures
        first_cut(d, at, walk) == d.len(),
    decreases d.len() - at,
{
    if at < d.len() {
        lemma_ascii_fits(d, walk, at);
        lemma_ascii_fits(d, walk, at + 1);
        if walk.place is Span || walk.place is Field {
            lemma_ascii_fits(d, walk, walk.mark as int);
        }
        let next = step(d, at, walk)->0;
        assert(is_behind(next, at + 1));
        lemma_ascii_walk(d, at + 1, next);
    }
}

/// ASCII directives are readable, whatever white space they begin with.
pub proof fn law_ascii_is_readable(d: Seq<char>)
    requires
        text::is_ascii(d),
        d.len() <= usize::MAX,
    ensures
        is_readable(d),
{
    lemma_ascii_walk(d, 0, beginning());
}

/// A cut in a directive that does not begin with white space fits.
proof fn lemma_unindented_fits(d: Seq<char>, walk: Walk, at: int)
    requires
        walk.part == walk.start,
        walk.part <= at,
    ensures
        fits(d, walk, at),
{
    let part = walk.part as int;
    let n = bytes(d, part, at);
    assert(part <= at && bytes(d, part, at) == n);
    assert(n == bytes(d, walk.start as int, at));
}

proof fn lemma_unindented_walk(d: Seq<char>, at: int, walk: Walk)
    requires
        0 <= at <= d.len() <= usize::MAX,
        is_behind(walk, at),
        walk.part == walk.start,
        walk.place is Lead ==> walk.part == at,
        d.len() > 0 ==> !text::is_white(d[0]),
        forall|i: int|
            1 <= i < d.len() && d[i - 1] == ',' ==> !text::is_white(#[trigger] d[i]),
        at > 0 && walk.place is Lead ==> d[at - 1] == ',',
    ensures
        first_cut(d, at, walk) == d.len(),
    decreases d.len() - at,
{
    if at < d.len() {
        lemma_unindented_fits(d, walk, at);
        lemma_unindented_fits(d, walk, at + 1);
        if walk.place is Span || walk.place is Field {
            lemma_unindented_fits(d, walk, walk.mark as int);
        }
        if walk.place is Lead {
            assert(!text::is_white(d[at]));
        }
        let next = step(d, at, walk)->0;
        assert(is_behind(next, at + 1));
        lemma_unindented_walk(d, at + 1, next);
    }
}

/// Directives that do not begin with white space are readable, whatever characters they
/// are made of.
pub proof fn law_unindented_is_readable(d: Seq<char>)
    requires
        d.len() <= usize::MAX,
        d.len() > 0 ==> !text::is_white(d[0]),
        forall|i: int|
            1 <= i < d.len() && d[i - 1] == ',' ==> !text::is_white(#[trigger] d[i]),
    ensures
        is_readable(d),
{
    lemma_unindented_walk(d, 0, beginning());
}

/// Whether byte `n` of the UTF-8 form of `s` lies between two characters.
pub open spec fn is_between_characters(s: Seq<char>, n: int) -> bool {
    exists|k: int| 0 <= k <= s.len() && vstd::utf8::encode_utf8(#[trigger] s.take(k)).len() == n
}

/// White space before a directive does not move the walk.
proof fn lemma_lead(d: Seq<char>, at: int, n: int)
    requires
        0 <= at <= n <= d.len(),
        forall|i: int| 0 <= i < n ==> text::is_white(#[trigger] d[i]),
    ensures
        first_cut(d, at, beginning()) == first_cut(d, n, beginning()),
    decreases n - at,
{
    if at < n {
        assert(text::is_white(d[at]));
        assert(d[at] != ',');
        assert(step(d, at, beginning()) == Some(beginning()));
        lemma_lead(d, at + 1, n);
    }
}

/// A name, or a level, does not move the walk.
proof fn lemma_stays(d: Seq<char>, at: int, n: int, walk: Walk)
    requires
        0 <= at <= n <= d.len(),
        walk.place is Name || walk.place is Level,
        forall|i: int|
            at <= i < n ==> #[trigger] d[i] != ',' && (walk.place is Name ==> d[i] != '=' && d[i]
                != '['),
    ensures
        first_cut(d, at, walk) == first_cut(d, n, walk),
    decreases n - at,
{
    if at < n {
        assert(d[at] != ',');
        lemma_stays(d, at + 1, n, walk);
    }
}

/// Whether a cut fits, by the UTF-8 form of what the walk has passed.
proof fn lemma_fits_between(d: Seq<char>, walk: Walk, at: int, front: Seq<char>)
    requires
        walk.part == 0,
        0 <= walk.start <= at <= d.len(),
        front == d.take(at),
    ensures
        fits(d, walk, at) <==> is_between_characters(
            front,
            vstd::utf8::encode_utf8(d.subrange(walk.start as int, at)).len() as int,
        ),
{
    law_bytes_are_utf8(d, walk.start as int, at);
    let n = bytes(d, walk.start as int, at);
    assert forall|k: int| 0 <= k <= at implies #[trigger] bytes(d, 0, k)
        == vstd::utf8::encode_utf8(front.take(k)).len() by {
        law_bytes_are_utf8(d, 0, k);
        assert(front.take(k) =~= d.subrange(0, k));
    }
    if fits(d, walk, at) {
        let k = choose|k: int|
            walk.part <= k <= at && #[trigger] bytes(d, walk.part as int, k) == n;
        assert(bytes(d, 0, k) == n);
        assert(vstd::utf8::encode_utf8(front.take(k)).len() == n);
    }
    if is_between_characters(front, n) {
        let k = choose|k: int|
            0 <= k <= front.len() && vstd::utf8::encode_utf8(#[trigger] front.take(k)).len() == n;
        assert(bytes(d, walk.part as int, k) == n);
    }
}

/// What makes a directive unreadable: behind white space, the name of the target is cut
/// from the beginning of the white space, at as many bytes as the name has. The directive
/// is readable exactly where that place, and the one a byte on, lie between characters.
pub proof fn law_cut_inside_a_character(lead: Seq<char>, name: Seq<char>, tail: Seq<char>)
    requires
        (lead + name + seq!['='] + tail).len() <= usize::MAX,
        forall|i: int| 0 <= i < lead.len() ==> text::is_white(#[trigger] lead[i]),
        name.len() > 0,
        !text::is_white(name[0]),
        forall|i: int|
            0 <= i < name.len() ==> #[trigger] name[i] != ',' && name[i] != '=' && name[i] != '[',
        !tail.contains(','),
    ensures
        ({
            let n = vstd::utf8::encode_utf8(name).len() as int;
            is_readable(lead + name + seq!['='] + tail) <==> is_between_characters(lead + name, n)
                && is_between_characters(lead + name + seq!['='], n + 1)
        }),
{
    let d = lead + name + seq!['='] + tail;
    let a = lead.len() as int;
    let b = a + name.len();
    assert forall|i: int| 0 <= i < a implies text::is_white(#[trigger] d[i]) by {
        assert(d[i] == lead[i]);
    }
    lemma_lead(d, 0, a);
    assert(d[a] == name[0]);
    let walk = Walk { place: Place::Name, start: a as usize, ..beginning() };
    assert(name[0] != ',');
    assert(step(d, a, beginning()) == Some(walk));
    assert(first_cut(d, a, beginning()) == first_cut(d, a + 1, walk));
    assert forall|i: int| a + 1 <= i < b implies #[trigger] d[i] != ',' && d[i] != '=' && d[i]
        != '[' by {
        assert(d[i] == name[i - a]);
    }
    lemma_stays(d, a + 1, b, walk);
    assert(d[b] == '=');
    let level = Walk { place: Place::Level, ..walk };
    assert forall|i: int| b + 1 <= i < d.len() implies #[trigger] d[i] != ',' by {
        assert(d[i] == tail[i - b - 1]);
    }
    lemma_stays(d, b + 1, d.len() as int, level);
    assert(is_readable(d) <==> fits(d, walk, b) && fits(d, walk, b + 1));
    assert(d.take(b) =~= lead + name);
    assert(d.take(b + 1) =~= lead + name + seq!['=']);
    assert(d.subrange(a, b) =~= name);
    assert(d.subrange(a, b + 1) =~= name.push('='));
    lemma_encoded_push(name, '=');
    lemma_fits_between(d, walk, b, lead + name);
    lemma_fits_between(d, walk, b + 1, lead + name + seq!['=']);
}

/// The front of unreadable directives ends right before the character at which they
/// would be cut: it is readable, and with that character it no longer is.
pub proof fn law_readable_front(d: Seq<char>)
    requires
        d.len() <= usize::MAX,
        !is_readable(d),
    ensures
        ({
            let n = readable_front(d).len() as int;
            &&& n < d.len()
            &&& readable_front(d) == d.take(n)
            &&& is_readable(d.take(n))
            &&& !is_readable(d.take(n + 1))
        }),
{
    lemma_front_is_readable(d);
    let n = first_cut(d, 0, beginning());
    lemma_cut_stays(d, n + 1, 0, beginning());
}

/// The first cut does not depend on what follows it.
proof fn lemma_cut_stays(d: Seq<char>, m: int, at: int, walk: Walk)
    requires
        0 <= at <= first_cut(d, at, walk) < m,
        m <= d.len() <= usize::MAX,
        is_behind(walk, at),
    ensures
        first_cut(d.take(m), at, walk) == first_cut(d, at, walk),
    decreases m - at,
{
    lemma_fits_front(d, m, walk, at);
    lemma_fits_front(d, m, walk, at + 1);
    lemma_fits_front(d, m, walk, walk.mark as int);
    assert(step(d.take(m), at, walk) == step(d, at, walk));
    if step(d, at, walk) is Some {
        let next = step(d, at, walk)->0;
        assert(is_behind(next, at + 1));
        lemma_first_cut(d, at + 1, next);
        lemma_cut_stays(d, m, at + 1, next);
    }
}

/// The name of a span does not move the walk.
proof fn lemma_in_span(d: Seq<char>, at: int, n: int, walk: Walk)
    requires
        0 <= at <= n <= d.len(),
        walk.place is Span,
        forall|i: int|
            at <= i < n ==> #[trigger] d[i] != ',' && d[i] != ']' && d[i] != '{',
    ensures
        first_cut(d, at, walk) == first_cut(d, n, walk),
    decreases n - at,
{
    if at < n {
        assert(d[at] != ',');
        lemma_in_span(d, at + 1, n, walk);
    }
}

/// A span adds places to be cut at: behind white space, the name before the bracket, the
/// name of the span at both its ends, and the level behind the `=` are all cut at the
/// bytes counted without the white space. The directive is readable exactly where all
/// four lie between characters.
pub proof fn law_cuts_of_a_span(
    lead: Seq<char>,
    name: Seq<char>,
    span: Seq<char>,
    level: Seq<char>,
)
    requires
        (lead + name + seq!['['] + span + seq![']', '='] + level).len() <= usize::MAX,
        forall|i: int| 0 <= i < lead.len() ==> text::is_white(#[trigger] lead[i]),
        name.len() > 0,
        !text::is_white(name[0]),
        forall|i: int|
            0 <= i < name.len() ==> #[trigger] name[i] != ',' && name[i] != '=' && name[i] != '[',
        forall|i: int|
            0 <= i < span.len() ==> #[trigger] span[i] != ',' && span[i] != ']' && span[i] != '{',
        !level.contains(','),
    ensures
        ({
            let d = lead + name + seq!['['] + span + seq![']', '='] + level;
            let a = lead.len() as int;
            let b = a + name.len();
            let c = b + 1 + span.len();
            is_readable(d) <==> {
                &&& is_cut_between(d, a, b)
                &&& is_cut_between(d, a, b + 1)
                &&& is_cut_between(d, a, c)
                &&& is_cut_between(d, a, c + 2)
            }
        }),
{
    let d = lead + name + seq!['['] + span + seq![']', '='] + level;
    let a = lead.len() as int;
    let b = a + name.len();
    let c = b + 1 + span.len();
    assert(d.take(b) =~= lead + name);
    let walk = lemma_to_bracket(d, lead, name);
    let inside = Walk { place: Place::Span, mark: (b + 1) as usize, ..walk };
    assert forall|i: int| b + 1 <= i < c implies #[trigger] d[i] != ',' && d[i] != ']' && d[i]
        != '{' by {
        assert(d[i] == span[i - b - 1]);
    }
    lemma_in_span(d, b + 1, c, inside);
    assert(d[c] == ']');
    let target = Walk { place: Place::Target, ..inside };
    assert(d[c + 1] == '=');
    let last = Walk { place: Place::Level, ..target };
    assert forall|i: int| c + 2 <= i < d.len() implies #[trigger] d[i] != ',' by {
        assert(d[i] == level[i - c - 2]);
    }
    lemma_stays(d, c + 2, d.len() as int, last);
    lemma_cut_between(d, walk, b);
    lemma_cut_between(d, inside, b + 1);
    lemma_cut_between(d, inside, c);
    lemma_cut_between(d, target, c + 2);
    assert(step(d, b, walk) == if is_cut_between(d, a, b) {
        Some(inside)
    } else {
        None
    });
    assert(step(d, c, inside) == if is_cut_between(d, a, b + 1) && is_cut_between(d, a, c) {
        Some(target)
    } else {
        None
    });
    assert(step(d, c + 1, target) == if is_cut_between(d, a, c + 2) {
        Some(last)
    } else {
        None
    });
    assert(first_cut(d, d.len() as int, last) == d.len());
    assert(first_cut(d, c + 1, target) == if is_cut_between(d, a, c + 2) {
        d.len() as int
    } else {
        c + 1
    });
    assert(first_cut(d, c, inside) == if is_cut_between(d, a, b + 1) && is_cut_between(d, a, c) {
        first_cut(d, c + 1, target)
    } else {
        c
    });
    assert(first_cut(d, b, walk) == if is_cut_between(d, a, b) {
        first_cut(d, c, inside)
    } else {
        b
    });
}

/// Whether a cut of the first directive of `d`, which begins at `start` without its white
/// space, that is meant for the character at `at` lies between two characters.
pub open spec fn is_cut_between(d: Seq<char>, start: int, at: int) -> bool {
    is_between_characters(
        d.take(at),
        vstd::utf8::encode_utf8(d.subrange(start, at)).len() as int,
    )
}

proof fn lemma_cut_between(d: Seq<char>, walk: Walk, at: int)
    requires
        walk.part == 0,
        0 <= walk.start <= at <= d.len(),
    ensures
        fits(d, walk, at) <==> is_cut_between(d, walk.start as int, at),
{
    lemma_fits_between(d, walk, at, d.take(at));
}

/// A field of a span does not move the walk.
proof fn lemma_in_field(d: Seq<char>, at: int, n: int, walk: Walk)
    requires
        0 <= at <= n <= d.len(),
        walk.place is Field,
        forall|i: int| at <= i < n ==> #[trigger] d[i] != ',' && d[i] != '}',
    ensures
        first_cut(d, at, walk) == first_cut(d, n, walk),
    decreases n - at,
{
    if at < n {
        assert(d[at] != ',');
        lemma_in_field(d, at + 1, n, walk);
    }
}

/// A field of a span is cut at both its ends as the name of the span is: the directive is
/// readable exactly where the name before the bracket, the name of the span and the field
/// are all cut between characters.
pub proof fn law_cuts_of_a_field(
    lead: Seq<char>,
    name: Seq<char>,
    span: Seq<char>,
    field: Seq<char>,
)
    requires
        (lead + name + seq!['['] + span + seq!['{'] + field + seq!['}', ']']).len() <= usize::MAX,
        forall|i: int| 0 <= i < lead.len() ==> text::is_white(#[trigger] lead[i]),
        name.len() > 0,
        !text::is_white(name[0]),
        forall|i: int|
            0 <= i < name.len() ==> #[trigger] name[i] != ',' && name[i] != '=' && name[i] != '[',
        forall|i: int|
            0 <= i < span.len() ==> #[trigger] span[i] != ',' && span[i] != ']' && span[i] != '{',
        field.len() > 0,
        forall|i: int| 0 <= i < field.len() ==> #[trigger] field[i] != ',' && field[i] != '}',
    ensures
        ({
            let d = lead + name + seq!['['] + span + seq!['{'] + field + seq!['}', ']'];
            let a = lead.len() as int;
            let b = a + name.len();
            let c = b + 1 + span.len();
            let e = c + 1 + field.len();
            is_readable(d) <==> {
                &&& is_cut_between(d, a, b)
                &&& is_cut_between(d, a, b + 1)
                &&& is_cut_between(d, a, c)
                &&& is_cut_between(d, a, c + 1)
                &&& is_cut_between(d, a, e)
            }
        }),
{
    let d = lead + name + seq!['['] + span + seq!['{'] + field + seq!['}', ']'];
    let a = lead.len() as int;
    let b = a + name.len();
    let c = b + 1 + span.len();
    let e = c + 1 + field.len();
    assert(d.take(b) =~= lead + name);
    let walk = lemma_to_bracket(d, lead, name);
    let inside = Walk { place: Place::Span, mark: (b + 1) as usize, ..walk };
    assert forall|i: int| b + 1 <= i < c implies #[trigger] d[i] != ',' && d[i] != ']' && d[i]
        != '{' by {
        assert(d[i] == span[i - b - 1]);
    }
    lemma_in_span(d, b + 1, c, inside);
    assert(d[c] == '{');
    let deeper = Walk { place: Place::Field, mark: (c + 1) as usize, ..inside };
    assert forall|i: int| c + 1 <= i < e implies #[trigger] d[i] != ',' && d[i] != '}' by {
        assert(d[i] == field[i - c - 1]);
    }
    lemma_in_field(d, c + 1, e, deeper);
    assert(d[e] == '}');
    let behind = Walk { place: Place::Fields, ..deeper };
    assert(d[e + 1] == ']');
    let target = Walk { place: Place::Target, ..behind };
    assert(d.len() == e + 2);
    lemma_cut_between(d, walk, b);
    lemma_cut_between(d, inside, b + 1);
    lemma_cut_between(d, inside, c);
    lemma_cut_between(d, deeper, c + 1);
    lemma_cut_between(d, deeper, e);
    assert(first_cut(d, e + 2, target) == d.len());
    assert(step(d, e + 1, behind) == Some(target));
    assert(first_cut(d, e + 1, behind) == d.len());
    assert(step(d, e, deeper) == if is_cut_between(d, a, c + 1) && is_cut_between(d, a, e) {
        Some(behind)
    } else {
        None
    });
    assert(first_cut(d, e, deeper) == if is_cut_between(d, a, c + 1) && is_cut_between(d, a, e) {
        d.len() as int
    } else {
        e
    });
    assert(step(d, c, inside) == if is_cut_between(d, a, b + 1) && is_cut_between(d, a, c) {
        Some(deeper)
    } else {
        None
    });
    assert(first_cut(d, c, inside) == if is_cut_between(d, a, b + 1) && is_cut_between(d, a, c) {
        first_cut(d, e, deeper)
    } else {
        c
    });
    assert(first_cut(d, b, walk) == if is_cut_between(d, a, b) {
        first_cut(d, c, inside)
    } else {
        b
    });
}

/// Whether two walks are the same but for `n` characters in front.
spec fn is_shifted(walk: Walk, far: Walk, n: int) -> bool {
    &&& far.place == walk.place
    &&& far.part == walk.part + n
    &&& far.start == walk.start + n
    &&& walk.place is Span || walk.place is Field ==> far.mark == walk.mark + n
}

/// The bytes of a stretch do not depend on what comes before it.
proof fn lemma_bytes_back(x: Seq<char>, d: Seq<char>, from: int, to: int)
    requires
        0 <= from,
        to <= d.len(),
    ensures
        bytes(x + d, x.len() + from, x.len() + to) == bytes(d, from, to),
    decreases to - from,
{
    if from < to {
        lemma_bytes_back(x, d, from, to - 1);
        assert((x + d)[x.len() + to - 1] == d[to - 1]);
    }
}

proof fn lemma_fits_back(x: Seq<char>, d: Seq<char>, walk: Walk, far: Walk, at: int)
    requires
        is_shifted(walk, far, x.len() as int),
        at <= d.len(),
    ensures
        fits(x + d, far, x.len() + at) == fits(d, walk, at),
{
    let n = x.len() as int;
    let part = walk.part as int;
    lemma_bytes_back(x, d, walk.start as int, at);
    let there = bytes(d, walk.start as int, at);
    if fits(d, walk, at) {
        let k = choose|k: int| walk.part <= k <= at && #[trigger] bytes(d, part, k) == there;
        lemma_bytes_back(x, d, part, k);
        assert(bytes(x + d, far.part as int, n + k) == bytes(x + d, far.start as int, n + at));
    }
    if fits(x + d, far, n + at) {
        let k = choose|k: int|
            far.part <= k <= n + at && #[trigger] bytes(x + d, far.part as int, k) == bytes(
                x + d,
                far.start as int,
                n + at,
            );
        lemma_bytes_back(x, d, part, k - n);
        assert(bytes(d, part, k - n) == there);
    }
}

/// The walk over a text does not depend on what comes before it.
proof fn lemma_walk_back(x: Seq<char>, d: Seq<char>, at: int, walk: Walk, far: Walk)
    requires
        0 <= at <= d.len(),
        (x + d).len() <= usize::MAX,
        is_behind(walk, at),
        is_shifted(walk, far, x.len() as int),
    ensures
        first_cut(x + d, x.len() + at, far) == x.len() + first_cut(d, at, walk),
    decreases d.len() - at,
{
    let n = x.len() as int;
    if at < d.len() {
        assert((x + d)[n + at] == d[at]);
        lemma_fits_back(x, d, walk, far, at);
        lemma_fits_back(x, d, walk, far, at + 1);
        if walk.place is Span || walk.place is Field {
            lemma_fits_back(x, d, walk, far, walk.mark as int);
        }
        match step(d, at, walk) {
            Some(next) => {
                let far_next = step(x + d, n + at, far)->0;
                assert(step(x + d, n + at, far) is Some);
                assert(is_shifted(next, far_next, n));
                assert(is_behind(next, at + 1));
                lemma_walk_back(x, d, at + 1, next, far_next);
            },
            None => {
                assert(step(x + d, n + at, far) is None);
            },
        }
    }
}

/// Where the walk over a directive without a span ends, and where it would be cut, does
/// not depend on what comes behind it.
proof fn lemma_plain_part(a: Seq<char>, rest: Seq<char>, at: int, walk: Walk) -> (end: Walk)
    requires
        0 <= at <= a.len(),
        (a + rest).len() <= usize::MAX,
        walk.part == 0,
        is_behind(walk, at),
        walk.place is Lead || walk.place is Name || walk.place is Level,
        walk.place is Lead ==> forall|i: int| 0 <= i < at ==> text::is_white(#[trigger] a[i]),
        !(walk.place is Lead) ==> exists|i: int| 0 <= i < at && !text::is_white(#[trigger] a[i]),
        forall|i: int| 0 <= i < a.len() ==> #[trigger] a[i] != ',' && a[i] != '[',
    ensures
        first_cut(a, at, walk) == a.len() ==> first_cut(a + rest, at, walk) == first_cut(
            a + rest,
            a.len() as int,
            end,
        ),
        first_cut(a, at, walk) < a.len() ==> first_cut(a + rest, at, walk) == first_cut(
            a,
            at,
            walk,
        ),
        first_cut(a, at, walk) <= a.len(),
        end.part == 0,
        end.place is Lead || end.place is Name || end.place is Level,
        end.place is Lead ==> forall|i: int| 0 <= i < a.len() ==> text::is_white(#[trigger] a[i]),
    decreases a.len() - at,
{
    if at < a.len() {
        assert((a + rest)[at] == a[at]);
        assert((a + rest).take(a.len() as int) =~= a);
        lemma_fits_front(a + rest, a.len() as int, walk, at);
        lemma_fits_front(a + rest, a.len() as int, walk, at + 1);
        assert(a[at] != ',' && a[at] != '[');
        match step(a, at, walk) {
            Some(next) => {
                assert(step(a + rest, at, walk) == Some(next));
                assert(is_behind(next, at + 1));
                if !(next.place is Lead) {
                    if walk.place is Lead {
                        assert(!text::is_white(a[at]));
                    } else {
                        let i = choose|i: int| 0 <= i < at && !text::is_white(#[trigger] a[i]);
                        assert(!text::is_white(a[i]));
                    }
                }
                lemma_plain_part(a, rest, at + 1, next)
            },
            None => {
                assert(step(a + rest, at, walk) is None);
                Walk { place: Place::Name, ..beginning() }
            },
        }
    } else {
        walk
    }
}

/// The directives between commas are read one by one: a list is readable exactly where
/// its first directive is and the rest is, each by itself. The first directive here has
/// no span and is not white space alone.
pub proof fn law_directives_are_read_one_by_one(a: Seq<char>, b: Seq<char>)
    requires
        (a + seq![','] + b).len() <= usize::MAX,
        forall|i: int| 0 <= i < a.len() ==> #[trigger] a[i] != ',' && a[i] != '[',
        a.len() == 0 || exists|i: int| 0 <= i < a.len() && !text::is_white(#[trigger] a[i]),
    ensures
        is_readable(a + seq![','] + b) <==> is_readable(a) && is_readable(b),
{
    let rest = seq![','] + b;
    let d = a + seq![','] + b;
    let front = a + seq![','];
    assert(a + rest =~= d);
    let end = lemma_plain_part(a, rest, 0, beginning());
    lemma_first_cut(b, 0, beginning());
    if is_readable(a) {
        let n = a.len() as int;
        assert(d[n] == ',');
        assert(step(d, n, end) == Some(next_part(n)));
        assert(first_cut(d, n, end) == first_cut(d, n + 1, next_part(n)));
        assert(front + b =~= d);
        lemma_walk_back(front, b, 0, beginning(), next_part(n));
    }
}

/// A parser that has stopped cuts nothing more.
proof fn lemma_stopped(d: Seq<char>, at: int, walk: Walk)
    requires
        0 <= at <= d.len(),
        walk.place is Failed,
    ensures
        first_cut(d, at, walk) == d.len(),
    decreases d.len() - at,
{
    if at < d.len() {
        lemma_stopped(d, at + 1, walk);
    }
}

/// A directive that is white space alone stops the parser, so that nothing behind it is
/// cut, whatever it is.
pub proof fn law_blank_directive_stops(lead: Seq<char>, rest: Seq<char>)
    requires
        lead.len() > 0,
        forall|i: int| 0 <= i < lead.len() ==> text::is_white(#[trigger] lead[i]),
    ensures
        is_readable(lead + seq![','] + rest),
{
    let d = lead + seq![','] + rest;
    let a = lead.len() as int;
    assert forall|i: int| 0 <= i < a implies text::is_white(#[trigger] d[i]) by {
        assert(d[i] == lead[i]);
    }
    lemma_lead(d, 0, a);
    assert(d[a] == ',');
    let stopped = Walk { place: Place::Failed, ..beginning() };
    assert(step(d, a, beginning()) == Some(stopped));
    lemma_stopped(d, a + 1, stopped);
}

/// A comma inside the brackets of a span stops the parser: what was cut before it decides
/// alone whether the directives are readable.
pub proof fn law_comma_in_a_span_stops(
    lead: Seq<char>,
    name: Seq<char>,
    span: Seq<char>,
    rest: Seq<char>,
)
    requires
        (lead + name + seq!['['] + span + seq![','] + rest).len() <= usize::MAX,
        forall|i: int| 0 <= i < lead.len() ==> text::is_white(#[trigger] lead[i]),
        name.len() > 0,
        !text::is_white(name[0]),
        forall|i: int|
            0 <= i < name.len() ==> #[trigger] name[i] != ',' && name[i] != '=' && name[i] != '[',
        forall|i: int|
            0 <= i < span.len() ==> #[trigger] span[i] != ',' && span[i] != ']' && span[i] != '{',
    ensures
        ({
            let d = lead + name + seq!['['] + span + seq![','] + rest;
            is_readable(d) <==> is_cut_between(
                d,
                lead.len() as int,
                (lead.len() + name.len()) as int,
            )
        }),
{
    let d = lead + name + seq!['['] + span + seq![','] + rest;
    let a = lead.len() as int;
    let b = a + name.len();
    let c = b + 1 + span.len();
    assert(d.take(b) =~= lead + name);
    let walk = lemma_to_bracket(d, lead, name);
    let inside = Walk { place: Place::Span, mark: (b + 1) as usize, ..walk };
    assert forall|i: int| b + 1 <= i < c implies #[trigger] d[i] != ',' && d[i] != ']' && d[i]
        != '{' by {
        assert(d[i] == span[i - b - 1]);
    }
    lemma_in_span(d, b + 1, c, inside);
    assert(d[c] == ',');
    let stopped = Walk { place: Place::Failed, ..inside };
    assert(step(d, c, inside) == Some(stopped));
    lemma_stopped(d, c + 1, stopped);
    lemma_cut_between(d, walk, b);
    assert(first_cut(d, c, inside) == d.len());
    assert(step(d, b, walk) == if is_cut_between(d, a, b) {
        Some(inside)
    } else {
        None
    });
    assert(first_cut(d, b, walk) == if is_cut_between(d, a, b) {
        d.len() as int
    } else {
        b
    });
}

/// The walk over white space and a name, up to the bracket behind it.
proof fn lemma_to_bracket(d: Seq<char>, lead: Seq<char>, name: Seq<char>) -> (walk: Walk)
    requires
        (lead + name).len() < d.len() <= usize::MAX,
        d.take((lead + name).len() as int) == lead + name,
        d[(lead + name).len() as int] == '[',
        forall|i: int| 0 <= i < lead.len() ==> text::is_white(#[trigger] lead[i]),
        name.len() > 0,
        !text::is_white(name[0]),
        forall|i: int|
            0 <= i < name.len() ==> #[trigger] name[i] != ',' && name[i] != '=' && name[i] != '[',
    ensures
        walk == (Walk { place: Place::Name, start: lead.len() as usize, ..beginning() }),
        first_cut(d, 0, beginning()) == first_cut(d, (lead + name).len() as int, walk),
{
    let a = lead.len() as int;
    let b = a + name.len();
    let front = lead + name;
    assert forall|i: int| 0 <= i < b implies #[trigger] d[i] == front[i] by {
        assert(d.take(b)[i] == d[i]);
    }
    assert forall|i: int| 0 <= i < a implies text::is_white(#[trigger] d[i]) by {
        assert(d[i] == front[i] && front[i] == lead[i]);
    }
    lemma_lead(d, 0, a);
    assert(d[a] == front[a] && front[a] == name[0]);
    let walk = Walk { place: Place::Name, start: a as usize, ..beginning() };
    assert(name[0] != ',');
    assert(step(d, a, beginning()) == Some(walk));
    assert forall|i: int| a + 1 <= i < b implies #[trigger] d[i] != ',' && d[i] != '=' && d[i]
        != '[' by {
        assert(d[i] == front[i] && front[i] == name[i - a]);
    }
    lemma_stays(d, a + 1, b, walk);
    walk
}

/// White space behind a span does not move the walk once it is there.
proof fn lemma_gap(d: Seq<char>, at: int, n: int, walk: Walk)
    requires
        0 <= at <= n <= d.len(),
        walk.place is Gap,
        forall|i: int| at <= i < n ==> text::is_white(#[trigger] d[i]),
    ensures
        first_cut(d, at, walk) == first_cut(d, n, walk),
    decreases n - at,
{
    if at < n {
        assert(text::is_white(d[at]));
        assert(d[at] != ',');
        lemma_gap(d, at + 1, n, walk);
    }
}

/// Behind a span comes `=`, white space or a comma; anything else stops the parser, and
/// so does `=` behind white space. What was cut before decides alone whether the
/// directives are readable.
pub proof fn law_junk_behind_a_span_stops(
    lead: Seq<char>,
    name: Seq<char>,
    span: Seq<char>,
    gap: Seq<char>,
    junk: char,
    rest: Seq<char>,
)
    requires
        (lead + name + seq!['['] + span + seq![']'] + gap + seq![junk] + rest).len()
            <= usize::MAX,
        forall|i: int| 0 <= i < lead.len() ==> text::is_white(#[trigger] lead[i]),
        name.len() > 0,
        !text::is_white(name[0]),
        forall|i: int|
            0 <= i < name.len() ==> #[trigger] name[i] != ',' && name[i] != '=' && name[i] != '[',
        forall|i: int|
            0 <= i < span.len() ==> #[trigger] span[i] != ',' && span[i] != ']' && span[i] != '{',
        forall|i: int| 0 <= i < gap.len() ==> text::is_white(#[trigger] gap[i]),
        !text::is_white(junk),
        junk != ',',
        junk == '=' ==> gap.len() > 0,
    ensures
        ({
            let d = lead + name + seq!['['] + span + seq![']'] + gap + seq![junk] + rest;
            let a = lead.len() as int;
            let b = a + name.len();
            let c = b + 1 + span.len();
            is_readable(d) <==> is_cut_between(d, a, b) && is_cut_between(d, a, b + 1)
                && is_cut_between(d, a, c)
        }),
{
    let d = lead + name + seq!['['] + span + seq![']'] + gap + seq![junk] + rest;
    let a = lead.len() as int;
    let b = a + name.len();
    let c = b + 1 + span.len();
    let g = c + 1 + gap.len();
    assert(d.take(b) =~= lead + name);
    let walk = lemma_to_bracket(d, lead, name);
    let inside = Walk { place: Place::Span, mark: (b + 1) as usize, ..walk };
    assert forall|i: int| b + 1 <= i < c implies #[trigger] d[i] != ',' && d[i] != ']' && d[i]
        != '{' by {
        assert(d[i] == span[i - b - 1]);
    }
    lemma_in_span(d, b + 1, c, inside);
    assert(d[c] == ']');
    let target = Walk { place: Place::Target, ..inside };
    assert(d[g] == junk);
    let stopped = Walk { place: Place::Failed, ..inside };
    lemma_stopped(d, g + 1, stopped);
    assert(first_cut(d, c + 1, target) == d.len()) by {
        if gap.len() == 0 {
            assert(step(d, g, target) == Some(stopped));
        } else {
            let white = Walk { place: Place::Gap, ..inside };
            assert forall|i: int| c + 1 <= i < g implies text::is_white(#[trigger] d[i]) by {
                assert(d[i] == gap[i - c - 1]);
            }
            assert(text::is_white(d[c + 1]));
            assert(d[c + 1] != '=' && d[c + 1] != ',');
            assert(step(d, c + 1, target) == Some(white));
            lemma_gap(d, c + 2, g, white);
            assert(step(d, g, white) == Some(stopped));
        }
    }
    lemma_cut_between(d, walk, b);
    lemma_cut_between(d, inside, b + 1);
    lemma_cut_between(d, inside, c);
    assert(step(d, c, inside) == if is_cut_between(d, a, b + 1) && is_cut_between(d, a, c) {
        Some(target)
    } else {
        None
    });
    assert(first_cut(d, c, inside) == if is_cut_between(d, a, b + 1) && is_cut_between(d, a, c) {
        d.len() as int
    } else {
        c
    });
    assert(step(d, b, walk) == if is_cut_between(d, a, b) {
        Some(inside)
    } else {
        None
    });
    assert(first_cut(d, b, walk) == if is_cut_between(d, a, b) {
        first_cut(d, c, inside)
    } else {
        b
    });
}

} // verus!
