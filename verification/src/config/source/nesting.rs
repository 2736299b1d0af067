//! Shared conversion from flat, delimited keys into nested values.
//!
//! Several sources present configuration as a flat list of keys and values rather
//! than a tree: environment variables use a separator such as `__`, and Azure App
//! Configuration conventionally uses `:`. Both need the same expansion, so it lives
//! here rather than in either one.

use vstd::prelude::*;

use crate::config::error::Error;
use crate::config::value::{self, insert_at, ConfigValue, Json};
use crate::text::{self, split_at_char};

verus! {

/// The path that the key at position `i` spells.
pub open spec fn path_at(flat: Seq<(String, String)>, i: int) -> Seq<Seq<char>> {
    text::split(flat[i].0@, '.')
}

/// Whether the key at position `i` needs an object where another key has its
/// value.
pub open spec fn blocked(flat: Seq<(String, String)>, i: int) -> bool {
    exists|j: int|
        0 <= j < flat.len() && value::leads(#[trigger] path_at(flat, j), path_at(flat, i))
            && path_at(flat, j).len() < path_at(flat, i).len()
}

/// Whether the key at position `k` comes before depth `depth`, position `i`, in
/// the order of depth and then of position.
pub open spec fn precedes(flat: Seq<(String, String)>, k: int, depth: int, i: int) -> bool {
    0 <= k < flat.len() && (path_at(flat, k).len() < depth || (path_at(flat, k).len() == depth && k
        < i))
}

/// What stands at the path `q` of the tree of the keys that come before depth
/// `depth`, position `i`: the value of the last such key that spells it, an object
/// on the way to such a key and at the root, and nothing anywhere else.
pub open spec fn holds(
    flat: Seq<(String, String)>,
    depth: int,
    i: int,
    q: Seq<Seq<char>>,
    found: Option<Json>,
) -> bool {
    if exists|k: int| precedes(flat, k, depth, i) && #[trigger] path_at(flat, k) == q {
        exists|k: int|
            {
                &&& precedes(flat, k, depth, i)
                &&& #[trigger] path_at(flat, k) == q
                &&& found == Some(Json::Text(flat[k].1@))
                &&& forall|l: int|
                    k < l && precedes(flat, l, depth, i) ==> #[trigger] path_at(flat, l) != q
            }
    } else if q.len() == 0 || (exists|k: int|
        precedes(flat, k, depth, i) && value::leads(q, #[trigger] path_at(flat, k))) {
        found is Some && found->0 is Object
    } else {
        found is None
    }
}

/// What stands at the path `q` of the tree of all the keys.
pub open spec fn nested(flat: Seq<(String, String)>, q: Seq<Seq<char>>, found: Option<Json>) -> bool {
    if exists|k: int| 0 <= k < flat.len() && #[trigger] path_at(flat, k) == q {
        exists|k: int|
            {
                &&& 0 <= k < flat.len()
                &&& #[trigger] path_at(flat, k) == q
                &&& found == Some(Json::Text(flat[k].1@))
                &&& forall|l: int| k < l < flat.len() ==> #[trigger] path_at(flat, l) != q
            }
    } else if q.len() == 0 || (exists|k: int|
        0 <= k < flat.len() && value::leads(q, #[trigger] path_at(flat, k))) {
        found is Some && found->0 is Object
    } else {
        found is None
    }
}

/// The tree of the keys before a place fits the key at that place exactly where
/// that key is not blocked.
proof fn lemma_fits_unless_blocked(
    flat: Seq<(String, String)>,
    root: Json,
    depth: int,
    i: int,
)
    requires
        0 <= i < flat.len(),
        path_at(flat, i).len() == depth,
        root is Object,
        forall|q: Seq<Seq<char>>| holds(flat, depth, i, q, #[trigger] value::lookup(root, q)),
    ensures
        value::fits(root, path_at(flat, i)) <==> !blocked(flat, i),
{
    let path = path_at(flat, i);
    text::lemma_split_nonempty(flat[i].0@, '.');
    value::lemma_fits(root, path);
    if blocked(flat, i) {
        let j = choose|j: int|
            0 <= j < flat.len() && value::leads(#[trigger] path_at(flat, j), path) && path_at(
                flat,
                j,
            ).len() < path.len();
        let q = path_at(flat, j);
        text::lemma_split_nonempty(flat[j].0@, '.');
        assert(precedes(flat, j, depth, i));
        assert(path.take(q.len() as int) =~= q);
        assert(holds(flat, depth, i, q, value::lookup(root, q)));
        assert(value::lookup(root, path.take(q.len() as int)) is Some);
    }
    if !value::fits(root, path) {
        let n = choose|n: int|
            0 < n < path.len() && !(match #[trigger] value::lookup(root, path.take(n)) {
                Some(found) => found is Object,
                None => true,
            });
        let q = path.take(n);
        assert(holds(flat, depth, i, q, value::lookup(root, q)));
        let k = choose|k: int| precedes(flat, k, depth, i) && #[trigger] path_at(flat, k) == q;
        assert(value::leads(path_at(flat, k), path));
        assert(blocked(flat, i));
    }
}

/// Putting a key that is not blocked at its place extends the tree by that key.
proof fn lemma_insert_extends(
    flat: Seq<(String, String)>,
    root: Json,
    depth: int,
    i: int,
    q: Seq<Seq<char>>,
)
    requires
        0 <= i < flat.len(),
        path_at(flat, i).len() == depth,
        root is Object,
        forall|p: Seq<Seq<char>>| holds(flat, depth, i, p, #[trigger] value::lookup(root, p)),
        !blocked(flat, i),
    ensures
        holds(
            flat,
            depth,
            i + 1,
            q,
            value::lookup(value::inserted(root, path_at(flat, i), flat[i].1@), q),
        ),
{
    let path = path_at(flat, i);
    text::lemma_split_nonempty(flat[i].0@, '.');
    lemma_fits_unless_blocked(flat, root, depth, i);
    value::lemma_inserted_lookup(root, path, flat[i].1@, q);
    assert(holds(flat, depth, i, q, value::lookup(root, q)));
    assert forall|k: int| precedes(flat, k, depth, i + 1) <==> precedes(flat, k, depth, i) || k
        == i by {}
    assert(precedes(flat, i, depth, i + 1));
    if q == path {
    } else if value::leads(q, path) {
        assert(q.len() < path.len()) by {
            if q.len() == path.len() {
                assert(q =~= path);
            }
        }
        assert forall|k: int| precedes(flat, k, depth, i + 1) implies #[trigger] path_at(flat, k)
            != q by {
            if path_at(flat, k) == q && k != i {
                assert(value::leads(path_at(flat, k), path));
                assert(blocked(flat, i));
            }
        }
    } else if value::leads(path, q) {
        assert(path.len() < q.len()) by {
            if q.len() == path.len() {
                assert(q =~= path);
            }
        }
        assert forall|k: int| precedes(flat, k, depth, i + 1) implies path_at(flat, k).len()
            < q.len() by {}
    } else {
        assert forall|k: int|
            precedes(flat, k, depth, i + 1) && #[trigger] path_at(flat, k) == q implies precedes(
            flat,
            k,
            depth,
            i,
        ) by {}
        assert forall|k: int|
            precedes(flat, k, depth, i + 1) && value::leads(
                q,
                #[trigger] path_at(flat, k),
            ) implies precedes(flat, k, depth, i) by {}
        if exists|k: int| precedes(flat, k, depth, i) && #[trigger] path_at(flat, k) == q {
            let k = choose|k: int|
                {
                    &&& precedes(flat, k, depth, i)
                    &&& #[trigger] path_at(flat, k) == q
                    &&& value::lookup(root, q) == Some(Json::Text(flat[k].1@))
                    &&& forall|l: int|
                        k < l && precedes(flat, l, depth, i) ==> #[trigger] path_at(flat, l) != q
                };
            assert(precedes(flat, k, depth, i + 1));
            assert(path_at(flat, k) == q);
            assert forall|l: int|
                k < l && precedes(flat, l, depth, i + 1) implies #[trigger] path_at(flat, l) != q by {
                if l != i {
                    assert(precedes(flat, l, depth, i));
                }
            }
        } else if q.len() > 0 && (exists|k: int|
            precedes(flat, k, depth, i) && value::leads(q, #[trigger] path_at(flat, k))) {
            let k = choose|k: int|
                precedes(flat, k, depth, i) && value::leads(q, #[trigger] path_at(flat, k));
            assert(precedes(flat, k, depth, i + 1));
        }
    }
}

/// Two places that the same keys come before have the same tree before them.
proof fn lemma_same_place(
    flat: Seq<(String, String)>,
    depth: int,
    i: int,
    depth2: int,
    i2: int,
    q: Seq<Seq<char>>,
    found: Option<Json>,
)
    requires
        holds(flat, depth, i, q, found),
        forall|k: int|
            #![trigger path_at(flat, k)]
            precedes(flat, k, depth, i) <==> precedes(flat, k, depth2, i2),
    ensures
        holds(flat, depth2, i2, q, found),
{
    if exists|k: int| precedes(flat, k, depth, i) && #[trigger] path_at(flat, k) == q {
        let k = choose|k: int|
            {
                &&& precedes(flat, k, depth, i)
                &&& #[trigger] path_at(flat, k) == q
                &&& found == Some(Json::Text(flat[k].1@))
                &&& forall|l: int|
                    k < l && precedes(flat, l, depth, i) ==> #[trigger] path_at(flat, l) != q
            };
        assert(precedes(flat, k, depth2, i2) && path_at(flat, k) == q);
    } else if q.len() > 0 && (exists|k: int|
        precedes(flat, k, depth, i) && value::leads(q, #[trigger] path_at(flat, k))) {
        let k = choose|k: int|
            precedes(flat, k, depth, i) && value::leads(q, #[trigger] path_at(flat, k));
        assert(precedes(flat, k, depth2, i2) && value::leads(q, path_at(flat, k)));
    }
}

/// Past the deepest key the tree holds every key.
proof fn lemma_all_nested(
    flat: Seq<(String, String)>,
    depth: int,
    q: Seq<Seq<char>>,
    found: Option<Json>,
)
    requires
        holds(flat, depth, 0, q, found),
        forall|k: int| 0 <= k < flat.len() ==> (#[trigger] path_at(flat, k)).len() < depth,
    ensures
        nested(flat, q, found),
{
    assert forall|k: int| 0 <= k < flat.len() implies #[trigger] precedes(flat, k, depth, 0) by {
        assert(path_at(flat, k).len() < depth);
    }
    if exists|k: int| 0 <= k < flat.len() && #[trigger] path_at(flat, k) == q {
        let k0 = choose|k: int| 0 <= k < flat.len() && #[trigger] path_at(flat, k) == q;
        assert(precedes(flat, k0, depth, 0) && path_at(flat, k0) == q);
        let k = choose|k: int|
            {
                &&& precedes(flat, k, depth, 0)
                &&& #[trigger] path_at(flat, k) == q
                &&& found == Some(Json::Text(flat[k].1@))
                &&& forall|l: int|
                    k < l && precedes(flat, l, depth, 0) ==> #[trigger] path_at(flat, l) != q
            };
        assert forall|l: int| k < l < flat.len() implies #[trigger] path_at(flat, l) != q by {
            assert(precedes(flat, l, depth, 0));
        }
    } else if q.len() > 0 && (exists|k: int|
        0 <= k < flat.len() && value::leads(q, #[trigger] path_at(flat, k))) {
        let k = choose|k: int|
            0 <= k < flat.len() && value::leads(q, #[trigger] path_at(flat, k));
        assert(precedes(flat, k, depth, 0) && value::leads(q, path_at(flat, k)));
    }
}

/// Expand dot-separated keys into a nested object.
///
/// Keys are taken shallowest first, and those of one depth in their order, so that
/// a conflict between a leaf and a branch at the same path (`db` as both a value
/// and an object) is detected rather than silently resolved by ordering. The error
/// is [`Error::MergeConflict`] with the first key, in that order, that requires an
/// object where another key has its value.
pub fn dot_keys_to_json(flat: &Vec<(String, String)>) -> (tree: Result<ConfigValue, Error>)
    ensures
        match tree {
            Ok(root) => {
                &&& forall|i: int| 0 <= i < flat@.len() ==> !#[trigger] blocked(flat@, i)
                &&& root@ is Object
                &&& forall|q: Seq<Seq<char>>| nested(flat@, q, #[trigger] value::lookup(root@, q))
            },
            Err(e) => exists|i: int|
                {
                    &&& 0 <= i < flat@.len()
                    &&& #[trigger] blocked(flat@, i)
                    &&& e matches Error::MergeConflict(key) && key@ == flat@[i].0@
                    &&& forall|j: int|
                        0 <= j < flat@.len() && #[trigger] blocked(flat@, j) ==> path_at(
                            flat@,
                            i,
                        ).len() < path_at(flat@, j).len() || (path_at(flat@, i).len() == path_at(
                            flat@,
                            j,
                        ).len() && i <= j)
                },
        },
{
    let mut paths: Vec<Vec<String>> = Vec::new();
    let mut deepest: usize = 0;
    let mut i: usize = 0;
    while i < flat.len()
        invariant
            i <= flat@.len(),
            paths@.len() == i,
            forall|k: int|
                0 <= k < i ==> text::views((#[trigger] paths@[k])@) == path_at(flat@, k)
                    && paths@[k]@.len() <= deepest,
        decreases flat.len() - i,
    {
        let parts: Vec<String> = split_at_char(flat[i].0.as_str(), '.');
        if parts.len() > deepest {
            deepest = parts.len();
        }
        paths.push(parts);
        i = i + 1;
    }
    let mut root: ConfigValue = ConfigValue::empty_object();
    let mut above: usize = 0;
    proof {
        assert forall|q: Seq<Seq<char>>| holds(flat@, 1, 0, q, #[trigger] value::lookup(root@, q)) by {
            assert forall|k: int| 0 <= k < flat@.len() implies (#[trigger] path_at(flat@, k)).len()
                >= 1 by {
                text::lemma_split_nonempty(flat@[k].0@, '.');
            }
        }
    }
    while above < deepest
        invariant
            above <= deepest,
            paths@.len() == flat@.len(),
            forall|k: int|
                0 <= k < flat@.len() ==> text::views((#[trigger] paths@[k])@) == path_at(flat@, k),
            root@ is Object,
            forall|q: Seq<Seq<char>>|
                holds(flat@, above + 1, 0, q, #[trigger] value::lookup(root@, q)),
            forall|k: int|
                0 <= k < flat@.len() && path_at(flat@, k).len() <= above ==> !#[trigger] blocked(
                    flat@,
                    k,
                ),
        decreases deepest - above,
    {
        let depth: usize = above + 1;
        let mut i: usize = 0;
        while i < flat.len()
            invariant
                i <= flat@.len(),
                depth == above + 1,
                paths@.len() == flat@.len(),
                forall|k: int|
                    0 <= k < flat@.len() ==> text::views((#[trigger] paths@[k])@) == path_at(
                        flat@,
                        k,
                    ),
                root@ is Object,
                forall|q: Seq<Seq<char>>|
                    holds(flat@, depth as int, i as int, q, #[trigger] value::lookup(root@, q)),
                forall|k: int|
                    precedes(flat@, k, depth as int, i as int) ==> !#[trigger] blocked(flat@, k),
            decreases flat.len() - i,
        {
            let ghost before = root@;
            proof {
                assert(text::views(paths@[i as int]@) == path_at(flat@, i as int));
            }
            if paths[i].len() == depth {
                proof {
                    lemma_fits_unless_blocked(flat@, before, depth as int, i as int);
                    assert(text::views(paths@[i as int]@).skip(0) =~= path_at(flat@, i as int));
                }
                if !insert_at(&mut root, &paths[i], 0, flat[i].1.clone()) {
                    proof {
                        assert forall|j: int|
                            0 <= j < flat@.len() && #[trigger] blocked(flat@, j) implies path_at(
                            flat@,
                            i as int,
                        ).len() < path_at(flat@, j).len() || (path_at(flat@, i as int).len()
                            == path_at(flat@, j).len() && i <= j) by {
                            assert(!precedes(flat@, j, depth as int, i as int));
                        }
                    }
                    return Err(Error::MergeConflict(flat[i].0.clone()));
                }
                proof {
                    assert forall|q: Seq<Seq<char>>|
                        holds(
                            flat@,
                            depth as int,
                            i + 1,
                            q,
                            #[trigger] value::lookup(root@, q),
                        ) by {
                        lemma_insert_extends(flat@, before, depth as int, i as int, q);
                    }
                    value::lemma_inserted_lookup(
                        before,
                        path_at(flat@, i as int),
                        flat@[i as int].1@,
                        Seq::empty(),
                    );
                }
            } else {
                proof {
                    assert forall|q: Seq<Seq<char>>|
                        holds(
                            flat@,
                            depth as int,
                            i + 1,
                            q,
                            #[trigger] value::lookup(root@, q),
                        ) by {
                        lemma_same_place(
                            flat@,
                            depth as int,
                            i as int,
                            depth as int,
                            i + 1,
                            q,
                            value::lookup(root@, q),
                        );
                    }
                }
            }
            i = i + 1;
        }
        proof {
            assert forall|q: Seq<Seq<char>>|
                holds(flat@, depth + 1, 0, q, #[trigger] value::lookup(root@, q)) by {
                lemma_same_place(
                    flat@,
                    depth as int,
                    i as int,
                    depth + 1,
                    0,
                    q,
                    value::lookup(root@, q),
                );
            }
            assert forall|k: int|
                0 <= k < flat@.len() && path_at(flat@, k).len() <= depth implies !#[trigger] blocked(
                flat@,
                k,
            ) by {
                assert(precedes(flat@, k, depth as int, i as int));
            }
        }
        above = depth;
    }
    proof {
        assert forall|k: int| 0 <= k < flat@.len() implies (#[trigger] path_at(flat@, k)).len()
            < above + 1 by {
            assert(text::views(paths@[k]@) == path_at(flat@, k));
            assert(text::views(paths@[k]@).len() == paths@[k]@.len());
        }
        assert forall|q: Seq<Seq<char>>| nested(flat@, q, #[trigger] value::lookup(root@, q)) by {
            lemma_all_nested(flat@, above + 1, q, value::lookup(root@, q));
        }
    }
    Ok(root)
}

/// The last of two equal keys counts: what stands at a path is the value of the last key
/// that spells it.
pub proof fn law_last_entry_counts(flat: Seq<(String, String)>, k: int, found: Option<Json>)
    requires
        0 <= k < flat.len(),
        forall|l: int|
            k < l < flat.len() ==> text::split((#[trigger] flat[l]).0@, '.') != text::split(
                flat[k].0@,
                '.',
            ),
        nested(flat, text::split(flat[k].0@, '.'), found),
    ensures
        found == Some(Json::Text(flat[k].1@)),
{
    let q = path_at(flat, k);
    let m = choose|m: int|
        {
            &&& 0 <= m < flat.len()
            &&& #[trigger] path_at(flat, m) == q
            &&& found == Some(Json::Text(flat[m].1@))
            &&& forall|l: int| m < l < flat.len() ==> #[trigger] path_at(flat, l) != q
        };
    if k < m {
        assert(text::split(flat[m].0@, '.') == q);
    }
}

/// A key is blocked exactly where the path of some key leads to, and ends before, its
/// own.
pub proof fn law_blocked(flat: Seq<(String, String)>, i: int)
    requires
        0 <= i < flat.len(),
    ensures
        blocked(flat, i) <==> exists|j: int|
            0 <= j < flat.len() && text::split((#[trigger] flat[j]).0@, '.').len() < text::split(
                flat[i].0@,
                '.',
            ).len() && text::split(flat[i].0@, '.').take(
                text::split(flat[j].0@, '.').len() as int,
            ) == text::split(flat[j].0@, '.'),
{
    let q = path_at(flat, i);
    if blocked(flat, i) {
        let j = choose|j: int|
            0 <= j < flat.len() && value::leads(#[trigger] path_at(flat, j), q) && path_at(
                flat,
                j,
            ).len() < q.len();
        assert(q.take(path_at(flat, j).len() as int) =~= path_at(flat, j));
        assert(flat[j] == flat[j]);
    }
    assert forall|j: int|
        0 <= j < flat.len() && path_at(flat, j).len() < q.len() && q.take(
            path_at(flat, j).len() as int,
        ) == path_at(flat, j) implies #[trigger] value::leads(path_at(flat, j), q) by {
        let p = path_at(flat, j);
        assert forall|k: int| 0 <= k < p.len() implies #[trigger] p[k] == q[k] by {
            assert(q.take(p.len() as int)[k] == q[k]);
        }
    }
    if exists|j: int|
        0 <= j < flat.len() && text::split((#[trigger] flat[j]).0@, '.').len() < q.len() && q.take(
            text::split(flat[j].0@, '.').len() as int,
        ) == text::split(flat[j].0@, '.') {
        let j = choose|j: int|
            0 <= j < flat.len() && text::split((#[trigger] flat[j]).0@, '.').len() < q.len()
                && q.take(text::split(flat[j].0@, '.').len() as int) == text::split(
                flat[j].0@,
                '.',
            );
        assert(value::leads(path_at(flat, j), q));
    }
}

} // verus!
