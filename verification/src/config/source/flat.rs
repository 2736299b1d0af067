//! Flat configuration: keys with their values, before they are nested.

use vstd::prelude::*;

use crate::config::error::Error;
use crate::config::source::nesting::{self, dot_keys_to_json};
use crate::config::value::{self, ConfigValue, Json};
use crate::text::{self, same};

verus! {

/// The map a list of pairs stands for: the later of two equal keys counts.
pub open spec fn flat_of(pairs: Seq<(String, String)>) -> Map<Seq<char>, Seq<char>>
    decreases pairs.len(),
{
    if pairs.len() == 0 {
        Map::empty()
    } else {
        flat_of(pairs.drop_last()).insert(pairs.last().0@, pairs.last().1@)
    }
}

/// Whether no key stands in the list twice.
pub open spec fn distinct(pairs: Seq<(String, String)>) -> bool {
    forall|i: int, j: int|
        0 <= i < j < pairs.len() ==> (#[trigger] pairs[i]).0@ != (#[trigger] pairs[j]).0@
}

/// A list without a repeated key holds exactly the pairs of its map.
pub proof fn lemma_flat_of(pairs: Seq<(String, String)>)
    requires
        distinct(pairs),
    ensures
        forall|i: int|
            0 <= i < pairs.len() ==> flat_of(pairs).dom().contains((#[trigger] pairs[i]).0@)
                && flat_of(pairs)[pairs[i].0@] == pairs[i].1@,
        forall|k: Seq<char>| #[trigger]
            flat_of(pairs).dom().contains(k) ==> exists|i: int|
                0 <= i < pairs.len() && (#[trigger] pairs[i]).0@ == k,
    decreases pairs.len(),
{
    if pairs.len() > 0 {
        let shorter = pairs.drop_last();
        assert forall|i: int, j: int| 0 <= i < j < shorter.len() implies (#[trigger] shorter[i]).0@
            != (#[trigger] shorter[j]).0@ by {
            assert(pairs[i].0@ != pairs[j].0@);
        }
        lemma_flat_of(shorter);
        assert forall|i: int| 0 <= i < pairs.len() implies flat_of(pairs).dom().contains(
            (#[trigger] pairs[i]).0@,
        ) && flat_of(pairs)[pairs[i].0@] == pairs[i].1@ by {
            if i < pairs.len() - 1 {
                assert(shorter[i] == pairs[i]);
                assert(pairs[i].0@ != pairs[pairs.len() - 1].0@);
            }
        }
        assert forall|k: Seq<char>| #[trigger] flat_of(pairs).dom().contains(k) implies exists|i: int|
            0 <= i < pairs.len() && (#[trigger] pairs[i]).0@ == k by {
            if k != pairs.last().0@ {
                assert(flat_of(shorter).dom().contains(k));
                let i = choose|i: int| 0 <= i < shorter.len() && (#[trigger] shorter[i]).0@ == k;
                assert(pairs[i].0@ == k);
            } else {
                assert(pairs[pairs.len() - 1].0@ == k);
            }
        }
    }
}

/// Give `key` the value `value`, in place of the one it had.
pub fn flat_insert(pairs: &mut Vec<(String, String)>, key: String, value: String)
    requires
        distinct(old(pairs)@),
    ensures
        distinct(final(pairs)@),
        flat_of(final(pairs)@) == flat_of(old(pairs)@).insert(key@, value@),
{
    let ghost before = pairs@;
    let mut i: usize = 0;
    while i < pairs.len()
        invariant
            i <= pairs@.len(),
            pairs@ == before,
            before == old(pairs)@,
            distinct(before),
            forall|j: int| 0 <= j < i ==> (#[trigger] before[j]).0@ != key@,
        decreases pairs.len() - i,
    {
        if same(pairs[i].0.as_str(), key.as_str()) {
            pairs.remove(i);
            proof {
                lemma_remove(before, i as int);
                assert(pairs@ =~= before.remove(i as int));
            }
            let ghost rest = pairs@;
            pairs.push((key, value));
            proof {
                assert(pairs@.drop_last() =~= rest);
                assert(flat_of(pairs@) =~= flat_of(before).insert(key@, value@));
                assert forall|a: int, b: int| 0 <= a < b < pairs@.len() implies (
                #[trigger] pairs@[a]).0@ != (#[trigger] pairs@[b]).0@ by {
                    let a0 = if a < i { a } else { a + 1 };
                    if b < pairs@.len() - 1 {
                        let b0 = if b < i { b } else { b + 1 };
                        assert(before[a0].0@ != before[b0].0@);
                    } else if a < i {
                        assert(before[a].0@ != before[i as int].0@);
                    } else {
                        assert(before[i as int].0@ != before[a + 1].0@);
                    }
                }
            }
            return;
        }
        i = i + 1;
    }
    pairs.push((key, value));
    proof {
        assert(pairs@.drop_last() =~= before);
    }
}

/// Taking a pair out of a list without a repeated key takes its key out of the map.
proof fn lemma_remove(pairs: Seq<(String, String)>, at: int)
    requires
        distinct(pairs),
        0 <= at < pairs.len(),
    ensures
        flat_of(pairs.remove(at)) == flat_of(pairs).remove(pairs[at].0@),
    decreases pairs.len(),
{
    let key = pairs[at].0@;
    let shorter = pairs.drop_last();
    assert forall|i: int, j: int| 0 <= i < j < shorter.len() implies (#[trigger] shorter[i]).0@ != (
    #[trigger] shorter[j]).0@ by {
        assert(pairs[i].0@ != pairs[j].0@);
    }
    if at == pairs.len() - 1 {
        assert(pairs.remove(at) =~= shorter);
        lemma_flat_of(shorter);
        assert(!flat_of(shorter).dom().contains(key)) by {
            if flat_of(shorter).dom().contains(key) {
                let i = choose|i: int| 0 <= i < shorter.len() && (#[trigger] shorter[i]).0@ == key;
                assert(pairs[i].0@ != pairs[at].0@);
            }
        }
        assert(flat_of(pairs).remove(key) =~= flat_of(shorter));
    } else {
        lemma_remove(shorter, at);
        assert(pairs.remove(at).drop_last() =~= shorter.remove(at));
        assert(pairs.remove(at).last() == pairs.last());
        assert(pairs[at].0@ != pairs[pairs.len() - 1].0@);
        assert(flat_of(pairs.remove(at)) =~= flat_of(pairs).remove(key));
    }
}

/// The path a key spells.
pub open spec fn path_of(key: Seq<char>) -> Seq<Seq<char>> {
    text::split(key, '.')
}

/// Whether `key` needs an object where another key of the map has its value.
pub open spec fn clashes(flat: Map<Seq<char>, Seq<char>>, key: Seq<char>) -> bool {
    flat.dom().contains(key) && exists|other: Seq<char>|
        flat.dom().contains(other) && value::leads(#[trigger] path_of(other), path_of(key))
            && path_of(other).len() < path_of(key).len()
}

/// What stands at the path `q` of the nested form of the map: the value of the key
/// that spells it, an object on the way to a key and at the root, and nothing
/// anywhere else.
pub open spec fn nested_at(
    flat: Map<Seq<char>, Seq<char>>,
    q: Seq<Seq<char>>,
    found: Option<Json>,
) -> bool {
    if exists|key: Seq<char>| flat.dom().contains(key) && #[trigger] path_of(key) == q {
        exists|key: Seq<char>|
            flat.dom().contains(key) && #[trigger] path_of(key) == q && found == Some(
                Json::Text(flat[key]),
            )
    } else if q.len() == 0 || (exists|key: Seq<char>|
        flat.dom().contains(key) && value::leads(q, #[trigger] path_of(key))) {
        found is Some && found->0 is Object
    } else {
        found is None
    }
}

/// Whether `tree` is the nested form of the map, or reports a key that clashes: one
/// of the shallowest that do.
pub open spec fn expands(
    flat: Map<Seq<char>, Seq<char>>,
    tree: Result<ConfigValue, Error>,
) -> bool {
    match tree {
        Ok(root) => {
            &&& forall|key: Seq<char>| !#[trigger] clashes(flat, key)
            &&& root@ is Object
            &&& forall|q: Seq<Seq<char>>| nested_at(flat, q, #[trigger] value::lookup(root@, q))
        },
        Err(e) => e matches Error::MergeConflict(key) && clashes(flat, key@) && (forall|other: Seq<char>| #[trigger]
            clashes(flat, other) ==> path_of(key@).len() <= path_of(other).len()),
    }
}

/// Nothing is lost in nesting: each key of the map is found, with its value, at the
/// path it spells.
pub proof fn law_expanded_key_is_found(
    flat: Map<Seq<char>, Seq<char>>,
    root: ConfigValue,
    key: Seq<char>,
)
    requires
        expands(flat, Ok::<ConfigValue, Error>(root)),
        flat.dom().contains(key),
    ensures
        value::lookup(root@, path_of(key)) == Some(Json::Text(flat[key])),
{
    let q = path_of(key);
    assert(nested_at(flat, q, value::lookup(root@, q)));
    let found = choose|found: Seq<char>|
        flat.dom().contains(found) && #[trigger] path_of(found) == q && value::lookup(root@, q)
            == Some(Json::Text(flat[found]));
    text::lemma_split_injective(found, key, '.');
}

/// Nest a flat list without a repeated key.
pub fn expand(flat: &Vec<(String, String)>) -> (tree: Result<ConfigValue, Error>)
    requires
        distinct(flat@),
    ensures
        expands(flat_of(flat@), tree),
{
    let tree: Result<ConfigValue, Error> = dot_keys_to_json(flat);
    proof {
        let map = flat_of(flat@);
        lemma_flat_of(flat@);
        assert forall|key: Seq<char>| #[trigger] clashes(map, key) implies exists|i: int|
            0 <= i < flat@.len() && flat@[i].0@ == key && #[trigger] nesting::blocked(flat@, i) by {
            let i = choose|i: int| 0 <= i < flat@.len() && (#[trigger] flat@[i]).0@ == key;
            let other = choose|other: Seq<char>|
                map.dom().contains(other) && value::leads(#[trigger] path_of(other), path_of(key))
                    && path_of(other).len() < path_of(key).len();
            let j = choose|j: int| 0 <= j < flat@.len() && (#[trigger] flat@[j]).0@ == other;
            assert(nesting::path_at(flat@, j) == path_of(other));
            assert(nesting::blocked(flat@, i));
        }
        match &tree {
            Ok(root) => {
                assert forall|q: Seq<Seq<char>>|
                    nested_at(map, q, #[trigger] value::lookup(root@, q)) by {
                    lemma_nested_at(flat@, q, value::lookup(root@, q));
                }
            },
            Err(e) => {
                let i = choose|i: int|
                    {
                        &&& 0 <= i < flat@.len()
                        &&& #[trigger] nesting::blocked(flat@, i)
                        &&& e matches Error::MergeConflict(key) && key@ == flat@[i].0@
                        &&& forall|j: int|
                            0 <= j < flat@.len() && #[trigger] nesting::blocked(flat@, j)
                                ==> nesting::path_at(flat@, i).len() < nesting::path_at(
                                flat@,
                                j,
                            ).len() || (nesting::path_at(flat@, i).len() == nesting::path_at(
                                flat@,
                                j,
                            ).len() && i <= j)
                    };
                let key = flat@[i].0@;
                let j = choose|j: int|
                    0 <= j < flat@.len() && value::leads(
                        #[trigger] nesting::path_at(flat@, j),
                        nesting::path_at(flat@, i),
                    ) && nesting::path_at(flat@, j).len() < nesting::path_at(flat@, i).len();
                assert(map.dom().contains(flat@[j].0@));
                assert(path_of(flat@[j].0@) == nesting::path_at(flat@, j));
                assert(clashes(map, key));
                assert forall|other: Seq<char>| #[trigger] clashes(map, other) implies path_of(
                    key,
                ).len() <= path_of(other).len() by {
                    let o = choose|o: int|
                        0 <= o < flat@.len() && flat@[o].0@ == other && #[trigger] nesting::blocked(
                            flat@,
                            o,
                        );
                    assert(nesting::path_at(flat@, o) == path_of(other));
                    assert(nesting::path_at(flat@, i) == path_of(key));
                }
            },
        }
    }
    tree
}

/// The tree of a list is the tree of its map.
proof fn lemma_nested_at(flat: Seq<(String, String)>, q: Seq<Seq<char>>, found: Option<Json>)
    requires
        distinct(flat),
        nesting::nested(flat, q, found),
    ensures
        nested_at(flat_of(flat), q, found),
{
    let map = flat_of(flat);
    lemma_flat_of(flat);
    if exists|key: Seq<char>| map.dom().contains(key) && #[trigger] path_of(key) == q {
        let key = choose|key: Seq<char>| map.dom().contains(key) && #[trigger] path_of(key) == q;
        let i = choose|i: int| 0 <= i < flat.len() && (#[trigger] flat[i]).0@ == key;
        assert(nesting::path_at(flat, i) == q);
        let k = choose|k: int|
            {
                &&& 0 <= k < flat.len()
                &&& #[trigger] nesting::path_at(flat, k) == q
                &&& found == Some(Json::Text(flat[k].1@))
                &&& forall|l: int|
                    k < l < flat.len() ==> #[trigger] nesting::path_at(flat, l) != q
            };
        assert(map.dom().contains(flat[k].0@));
        assert(path_of(flat[k].0@) == q);
    } else {
        assert forall|k: int| 0 <= k < flat.len() implies #[trigger] nesting::path_at(flat, k)
            != q by {
            assert(map.dom().contains(flat[k].0@));
            assert(path_of(flat[k].0@) == nesting::path_at(flat, k));
        }
        if q.len() > 0 {
            if exists|key: Seq<char>|
                map.dom().contains(key) && value::leads(q, #[trigger] path_of(key)) {
                let key = choose|key: Seq<char>|
                    map.dom().contains(key) && value::leads(q, #[trigger] path_of(key));
                let i = choose|i: int| 0 <= i < flat.len() && (#[trigger] flat[i]).0@ == key;
                assert(value::leads(q, nesting::path_at(flat, i)));
            } else {
                assert forall|k: int| 0 <= k < flat.len() implies !value::leads(
                    q,
                    #[trigger] nesting::path_at(flat, k),
                ) by {
                    assert(map.dom().contains(flat[k].0@));
                    assert(path_of(flat[k].0@) == nesting::path_at(flat, k));
                }
            }
        }
    }
}

/// Nothing is made up in nesting: a text in the tree is the value of a key that spells
/// its path, and whatever else is in the tree is an object on the way to one, or the
/// root.
pub proof fn law_only_keys_are_found(
    flat: Map<Seq<char>, Seq<char>>,
    root: ConfigValue,
    q: Seq<Seq<char>>,
)
    requires
        expands(flat, Ok::<ConfigValue, Error>(root)),
        value::lookup(root@, q) is Some,
    ensures
        match value::lookup(root@, q)->0 {
            Json::Text(s) => exists|key: Seq<char>|
                flat.dom().contains(key) && #[trigger] text::split(key, '.') == q && flat[key] == s,
            found => found is Object && (q.len() == 0 || exists|key: Seq<char>|
                flat.dom().contains(key) && q.len() <= (#[trigger] text::split(key, '.')).len()
                    && text::split(key, '.').take(q.len() as int) == q),
        },
{
    let found = value::lookup(root@, q);
    assert(nested_at(flat, q, found));
    if exists|key: Seq<char>| flat.dom().contains(key) && #[trigger] path_of(key) == q {
        let key = choose|key: Seq<char>|
            flat.dom().contains(key) && #[trigger] path_of(key) == q && found == Some(
                Json::Text(flat[key]),
            );
        assert(text::split(key, '.') == q);
    } else if q.len() > 0 {
        let key = choose|key: Seq<char>|
            flat.dom().contains(key) && value::leads(q, #[trigger] path_of(key));
        assert(text::split(key, '.').take(q.len() as int) =~= q);
    }
}

/// Nesting fails exactly where it has to: where one key spells a path that leads to, and
/// ends before, the path of another, so that a value would have to be an object. Then
/// the error names a key for which that is so.
pub proof fn law_nesting_fails_on_a_clash(
    flat: Map<Seq<char>, Seq<char>>,
    short: Seq<char>,
    long: Seq<char>,
    tree: Result<ConfigValue, Error>,
)
    requires
        expands(flat, tree),
    ensures
        flat.dom().contains(short) && flat.dom().contains(long) && text::split(short, '.').len()
            < text::split(long, '.').len() && text::split(long, '.').take(
            text::split(short, '.').len() as int,
        ) == text::split(short, '.') ==> tree is Err,
        tree matches Err(e) ==> e matches Error::MergeConflict(key) && flat.dom().contains(key@)
            && exists|other: Seq<char>|
            flat.dom().contains(other) && (#[trigger] text::split(other, '.')).len() < text::split(
                key@,
                '.',
            ).len() && text::split(key@, '.').take(text::split(other, '.').len() as int)
                == text::split(other, '.'),
{
    let p = text::split(short, '.');
    let q = text::split(long, '.');
    if flat.dom().contains(short) && flat.dom().contains(long) && p.len() < q.len() && q.take(
        p.len() as int,
    ) == p {
        assert forall|i: int| 0 <= i < p.len() implies #[trigger] p[i] == q[i] by {
            assert(q.take(p.len() as int)[i] == q[i]);
        }
        assert(value::leads(path_of(short), path_of(long)));
        assert(clashes(flat, long));
    }
    match tree {
        Err(e) => {
            let key = e->MergeConflict_0@;
            let other = choose|other: Seq<char>|
                flat.dom().contains(other) && value::leads(#[trigger] path_of(other), path_of(key))
                    && path_of(other).len() < path_of(key).len();
            let op = text::split(other, '.');
            assert(text::split(key, '.').take(op.len() as int) =~= op);
        },
        Ok(_) => {},
    }
}

/// The key that is reported is one of the shallowest: no key that clashes has a shorter
/// path.
pub proof fn law_reported_key_is_shallowest(
    flat: Map<Seq<char>, Seq<char>>,
    e: Error,
    short: Seq<char>,
    long: Seq<char>,
)
    requires
        expands(flat, Err::<ConfigValue, Error>(e)),
        flat.dom().contains(short),
        flat.dom().contains(long),
        text::split(short, '.').len() < text::split(long, '.').len(),
        text::split(long, '.').take(text::split(short, '.').len() as int) == text::split(
            short,
            '.',
        ),
    ensures
        e matches Error::MergeConflict(key) && text::split(key@, '.').len() <= text::split(
            long,
            '.',
        ).len(),
{
    let p = text::split(short, '.');
    let q = text::split(long, '.');
    assert forall|i: int| 0 <= i < p.len() implies #[trigger] p[i] == q[i] by {
        assert(q.take(p.len() as int)[i] == q[i]);
    }
    assert(value::leads(path_of(short), path_of(long)));
    assert(clashes(flat, long));
}

} // verus!
