//! Lists of paths: sorting by path order with repeated paths dropped, and
//! the proof that only one list is sorted and free of repeats in that sense.
use vstd::prelude::*;

use crate::path::{compare_paths, lemma_path_order, path_lt, paths_same, same_path, Order, PathStyle};

verus! {

pub open spec fn views(v: Seq<String>) -> Seq<Seq<char>> {
    v.map_values(|x: String| x@)
}

/// Each path comes strictly before the next.
pub open spec fn strictly_sorted(r: Seq<Seq<char>>, style: PathStyle) -> bool {
    forall|a: int, b: int| 0 <= a < b < r.len() ==> path_lt(#[trigger] r[a], #[trigger] r[b], style)
}

/// No earlier entry of `input` is the same path as entry `k`.
#[verifier::opaque]
pub open spec fn first_of_its_path(input: Seq<Seq<char>>, k: int, style: PathStyle) -> bool {
    forall|k2: int| 0 <= k2 < k ==> !same_path(#[trigger] input[k2], input[k], style)
}

/// Some entry of `r` is the same path as `x`.
pub open spec fn has_same_path(r: Seq<Seq<char>>, x: Seq<char>, style: PathStyle) -> bool {
    exists|m: int| 0 <= m < r.len() && same_path(x, #[trigger] r[m], style)
}

/// `x` is an entry of `input` that no earlier entry repeats as a path.
pub open spec fn is_first_occurrence(input: Seq<Seq<char>>, x: Seq<char>, style: PathStyle) -> bool {
    exists|k: int| 0 <= k < input.len() && x == #[trigger] input[k] && first_of_its_path(input, k, style)
}

/// Every entry of `input` has the same path in `r`.
#[verifier::opaque]
pub open spec fn covers(r: Seq<Seq<char>>, input: Seq<Seq<char>>, style: PathStyle) -> bool {
    forall|k: int| 0 <= k < input.len() ==> has_same_path(r, #[trigger] input[k], style)
}

/// Every entry of `r` is an entry of `input` that no earlier entry repeats.
#[verifier::opaque]
pub open spec fn from_first_occurrences(
    r: Seq<Seq<char>>,
    input: Seq<Seq<char>>,
    style: PathStyle,
) -> bool {
    forall|m: int| 0 <= m < r.len() ==> is_first_occurrence(input, #[trigger] r[m], style)
}

/// `r` is `input` sorted by path order with repeated paths dropped, each path
/// kept in the spelling of its first occurrence.
pub open spec fn is_sorted_dedup(r: Seq<Seq<char>>, input: Seq<Seq<char>>, style: PathStyle) -> bool {
    &&& strictly_sorted(r, style)
    &&& covers(r, input, style)
    &&& from_first_occurrences(r, input, style)
}

/// The sorted, duplicate-free list of `input` (unique: see
/// `lemma_sorted_dedup_unique`).
pub open spec fn sorted_dedup(input: Seq<Seq<char>>, style: PathStyle) -> Seq<Seq<char>> {
    choose|r: Seq<Seq<char>>| is_sorted_dedup(r, input, style)
}

proof fn lemma_sorted_same_elements(r1: Seq<Seq<char>>, r2: Seq<Seq<char>>, style: PathStyle)
    requires
        strictly_sorted(r1, style),
        strictly_sorted(r2, style),
        forall|m: int| 0 <= m < r1.len() ==> r2.contains(#[trigger] r1[m]),
        forall|m: int| 0 <= m < r2.len() ==> r1.contains(#[trigger] r2[m]),
    ensures
        r1 == r2,
    decreases r1.len(),
{
    if r1.len() == 0 {
        if r2.len() > 0 {
            assert(r1.contains(r2[0]));
        }
        assert(r1 =~= r2);
    } else {
        assert(r2.contains(r1[0]));
        let p = choose|p: int| 0 <= p < r2.len() && r2[p] == r1[0];
        if p > 0 {
            assert(path_lt(r2[0], r2[p], style));
            assert(r1.contains(r2[0]));
            let q = choose|q: int| 0 <= q < r1.len() && r1[q] == r2[0];
            lemma_path_order(r1[0], r1[0], r1[0], style);
            if q > 0 {
                assert(path_lt(r1[0], r1[q], style));
                lemma_path_order(r1[0], r2[0], r1[0], style);
            }
            assert(false);
        }
        let t1 = r1.drop_first();
        let t2 = r2.drop_first();
        assert forall|m: int| 0 <= m < t1.len() implies t2.contains(#[trigger] t1[m]) by {
            assert(r2.contains(r1[m + 1]));
            let p2 = choose|p2: int| 0 <= p2 < r2.len() && r2[p2] == r1[m + 1];
            assert(path_lt(r1[0], r1[m + 1], style));
            lemma_path_order(r1[0], r1[0], r1[0], style);
            assert(p2 != 0);
            assert(t2[p2 - 1] == t1[m]);
        }
        assert forall|m: int| 0 <= m < t2.len() implies t1.contains(#[trigger] t2[m]) by {
            assert(r1.contains(r2[m + 1]));
            let p1 = choose|p1: int| 0 <= p1 < r1.len() && r1[p1] == r2[m + 1];
            assert(path_lt(r2[0], r2[m + 1], style));
            lemma_path_order(r2[0], r2[0], r2[0], style);
            assert(p1 != 0);
            assert(t1[p1 - 1] == t2[m]);
        }
        lemma_sorted_same_elements(t1, t2, style);
        assert(r1 =~= seq![r1[0]] + t1);
        assert(r2 =~= seq![r2[0]] + t2);
    }
}

proof fn lemma_first_occurrences_agree(input: Seq<Seq<char>>, k: int, k2: int, style: PathStyle)
    requires
        0 <= k < input.len(),
        0 <= k2 < input.len(),
        first_of_its_path(input, k, style),
        first_of_its_path(input, k2, style),
        same_path(input[k], input[k2], style),
    ensures
        k == k2,
{
    reveal(first_of_its_path);
    if k < k2 {
        assert(!same_path(input[k], input[k2], style));
    } else if k2 < k {
        assert(!same_path(input[k2], input[k], style));
    }
}

proof fn covers_witness(r: Seq<Seq<char>>, input: Seq<Seq<char>>, style: PathStyle, k: int) -> (m:
    int)
    requires
        covers(r, input, style),
        0 <= k < input.len(),
    ensures
        0 <= m < r.len(),
        same_path(input[k], r[m], style),
{
    reveal(covers);
    assert(has_same_path(r, input[k], style));
    choose|m: int| 0 <= m < r.len() && same_path(input[k], r[m], style)
}

proof fn first_occurrence_witness(
    r: Seq<Seq<char>>,
    input: Seq<Seq<char>>,
    style: PathStyle,
    m: int,
) -> (k: int)
    requires
        from_first_occurrences(r, input, style),
        0 <= m < r.len(),
    ensures
        0 <= k < input.len(),
        r[m] == input[k],
        first_of_its_path(input, k, style),
{
    reveal(from_first_occurrences);
    assert(is_first_occurrence(input, r[m], style));
    choose|k: int| 0 <= k < input.len() && r[m] == input[k] && first_of_its_path(input, k, style)
}

proof fn lemma_sorted_dedup_within(
    r1: Seq<Seq<char>>,
    r2: Seq<Seq<char>>,
    input: Seq<Seq<char>>,
    style: PathStyle,
)
    requires
        from_first_occurrences(r1, input, style),
        covers(r2, input, style),
        from_first_occurrences(r2, input, style),
    ensures
        forall|m: int| 0 <= m < r1.len() ==> r2.contains(#[trigger] r1[m]),
{
    assert forall|m: int| 0 <= m < r1.len() implies r2.contains(#[trigger] r1[m]) by {
        let k = first_occurrence_witness(r1, input, style, m);
        let m2 = covers_witness(r2, input, style, k);
        let k2 = first_occurrence_witness(r2, input, style, m2);
        lemma_first_occurrences_agree(input, k, k2, style);
        assert(r2[m2] == r1[m]);
    }
}

/// The sorted, duplicate-free form of a non-empty list is not empty.
pub proof fn lemma_sorted_dedup_nonempty(r: Seq<Seq<char>>, input: Seq<Seq<char>>, style: PathStyle)
    requires
        is_sorted_dedup(r, input, style),
        input.len() > 0,
    ensures
        r.len() > 0,
{
    let m = covers_witness(r, input, style, 0);
}

/// Only one list is the sorted, duplicate-free form of a list of paths.
pub proof fn lemma_sorted_dedup_unique(
    r1: Seq<Seq<char>>,
    r2: Seq<Seq<char>>,
    input: Seq<Seq<char>>,
    style: PathStyle,
)
    requires
        is_sorted_dedup(r1, input, style),
        is_sorted_dedup(r2, input, style),
    ensures
        r1 == r2,
{
    lemma_sorted_dedup_within(r1, r2, input, style);
    lemma_sorted_dedup_within(r2, r1, input, style);
    lemma_sorted_same_elements(r1, r2, style);
}


proof fn lemma_first_in_prefix(inp: Seq<Seq<char>>, i: int, k: int, style: PathStyle)
    requires
        0 <= k < i <= inp.len(),
    ensures
        first_of_its_path(inp.take(i), k, style) == first_of_its_path(inp, k, style),
{
    reveal(first_of_its_path);
    let t = inp.take(i);
    assert(t[k] == inp[k]);
    if first_of_its_path(t, k, style) {
        assert forall|k2: int| 0 <= k2 < k implies !same_path(#[trigger] inp[k2], inp[k], style) by {
            assert(t[k2] == inp[k2]);
        }
    }
    if first_of_its_path(inp, k, style) {
        assert forall|k2: int| 0 <= k2 < k implies !same_path(#[trigger] t[k2], t[k], style) by {
            assert(t[k2] == inp[k2]);
        }
    }
}

proof fn lemma_sorted_dedup_skip(r: Seq<Seq<char>>, inp: Seq<Seq<char>>, i: int, j: int, style: PathStyle)
    requires
        0 <= i < inp.len(),
        is_sorted_dedup(r, inp.take(i), style),
        0 <= j < r.len(),
        same_path(r[j], inp[i], style),
    ensures
        is_sorted_dedup(r, inp.take(i + 1), style),
{
    let pre = inp.take(i);
    let post = inp.take(i + 1);
    assert forall|k: int| 0 <= k < post.len() implies has_same_path(r, #[trigger] post[k], style) by {
        if k < i {
            let m = covers_witness(r, pre, style, k);
            assert(post[k] == pre[k]);
        } else {
            assert(post[k] == inp[i]);
            assert(same_path(post[k], r[j], style));
        }
    }
    assert(covers(r, post, style)) by {
        reveal(covers);
    }
    assert forall|m: int| 0 <= m < r.len() implies is_first_occurrence(post, #[trigger] r[m], style) by {
        let k = first_occurrence_witness(r, pre, style, m);
        lemma_first_in_prefix(inp, i, k, style);
        lemma_first_in_prefix(inp, i + 1, k, style);
        assert(post[k] == pre[k]);
    }
    assert(from_first_occurrences(r, post, style)) by {
        reveal(from_first_occurrences);
    }
}

proof fn lemma_insert_sorted(r: Seq<Seq<char>>, x: Seq<char>, j: int, style: PathStyle)
    requires
        strictly_sorted(r, style),
        0 <= j <= r.len(),
        forall|a: int| 0 <= a < j ==> path_lt(#[trigger] r[a], x, style),
        j < r.len() ==> path_lt(x, r[j], style),
    ensures
        strictly_sorted(r.insert(j, x), style),
        forall|m: int| 0 <= m < r.len() ==> !same_path(#[trigger] r[m], x, style),
{
    let r2 = r.insert(j, x);
    assert forall|m: int| 0 <= m < r.len() implies !same_path(#[trigger] r[m], x, style) && (m >= j
        ==> path_lt(x, r[m], style)) by {
        lemma_path_order(r[m], x, x, style);
        lemma_path_order(x, r[m], r[m], style);
        if m > j {
            assert(path_lt(r[j], r[m], style));
            lemma_path_order(x, r[j], r[m], style);
        }
    }
    assert forall|a: int, b: int| 0 <= a < b < r2.len() implies path_lt(
        #[trigger] r2[a],
        #[trigger] r2[b],
        style,
    ) by {
        if b < j {
            assert(r2[a] == r[a] && r2[b] == r[b]);
        } else if b == j {
            assert(r2[a] == r[a] && r2[b] == x);
        } else if a < j {
            assert(r2[a] == r[a] && r2[b] == r[b - 1]);
            lemma_path_order(r[a], x, r[b - 1], style);
        } else if a == j {
            assert(r2[a] == x && r2[b] == r[b - 1]);
        } else {
            assert(r2[a] == r[a - 1] && r2[b] == r[b - 1]);
        }
    }
}

proof fn lemma_insert_covers(
    r: Seq<Seq<char>>,
    inp: Seq<Seq<char>>,
    i: int,
    j: int,
    r2: Seq<Seq<char>>,
    style: PathStyle,
)
    requires
        0 <= i < inp.len(),
        covers(r, inp.take(i), style),
        0 <= j <= r.len(),
        r2 == r.insert(j, inp[i]),
    ensures
        covers(r2, inp.take(i + 1), style),
{
    let pre = inp.take(i);
    let post = inp.take(i + 1);
    assert forall|k: int| 0 <= k < post.len() implies has_same_path(r2, #[trigger] post[k], style) by {
        if k < i {
            let m = covers_witness(r, pre, style, k);
            assert(post[k] == pre[k]);
            if m < j {
                assert(r2[m] == r[m]);
            } else {
                assert(r2[m + 1] == r[m]);
            }
        } else {
            assert(post[k] == inp[i]);
            assert(r2[j] == inp[i]);
        }
    }
    assert(covers(r2, post, style)) by {
        reveal(covers);
    }
}

proof fn lemma_insert_first(r: Seq<Seq<char>>, inp: Seq<Seq<char>>, i: int, j: int, r2: Seq<Seq<char>>, style: PathStyle)
    requires
        0 <= i < inp.len(),
        covers(r, inp.take(i), style),
        from_first_occurrences(r, inp.take(i), style),
        0 <= j <= r.len(),
        r2 == r.insert(j, inp[i]),
        forall|m: int| 0 <= m < r.len() ==> !same_path(#[trigger] r[m], inp[i], style),
    ensures
        from_first_occurrences(r2, inp.take(i + 1), style),
{
    let x = inp[i];
    let pre = inp.take(i);
    let post = inp.take(i + 1);
    assert(first_of_its_path(post, i, style)) by {
        reveal(first_of_its_path);
        assert forall|k2: int| 0 <= k2 < i implies !same_path(#[trigger] post[k2], post[i], style) by {
            let m = covers_witness(r, pre, style, k2);
            assert(post[k2] == pre[k2]);
            assert(post[i] == x);
            assert(!same_path(r[m], x, style));
        }
    }
    assert forall|m: int| 0 <= m < r2.len() implies is_first_occurrence(post, #[trigger] r2[m], style) by {
        if m == j {
            assert(r2[m] == post[i]);
        } else {
            let mm = if m < j {
                m
            } else {
                m - 1
            };
            assert(r2[m] == r[mm]);
            let k = first_occurrence_witness(r, pre, style, mm);
            lemma_first_in_prefix(inp, i, k, style);
            lemma_first_in_prefix(inp, i + 1, k, style);
            assert(post[k] == pre[k]);
            assert(r2[m] == post[k]);
        }
    }
    assert(from_first_occurrences(r2, post, style)) by {
        reveal(from_first_occurrences);
    }
}

proof fn lemma_sorted_dedup_insert(
    r: Seq<Seq<char>>,
    inp: Seq<Seq<char>>,
    i: int,
    j: int,
    style: PathStyle,
)
    requires
        0 <= i < inp.len(),
        is_sorted_dedup(r, inp.take(i), style),
        0 <= j <= r.len(),
        forall|a: int| 0 <= a < j ==> path_lt(#[trigger] r[a], inp[i], style),
        j < r.len() ==> path_lt(inp[i], r[j], style),
    ensures
        is_sorted_dedup(r.insert(j, inp[i]), inp.take(i + 1), style),
{
    lemma_insert_sorted(r, inp[i], j, style);
    lemma_insert_covers(r, inp, i, j, r.insert(j, inp[i]), style);
    lemma_insert_first(r, inp, i, j, r.insert(j, inp[i]), style);
}

proof fn lemma_views_insert(r: Seq<String>, j: int, x: String)
    requires
        0 <= j <= r.len(),
    ensures
        views(r.insert(j, x)) == views(r).insert(j, x@),
{
    assert(views(r.insert(j, x)) =~= views(r).insert(j, x@));
}

/// Sorts paths by path order and drops repeated paths, keeping the first
/// spelling of each.
pub fn sort_dedup_paths(input: &Vec<String>, style: PathStyle) -> (r: Vec<String>)
    ensures
        is_sorted_dedup(views(r@), views(input@), style),
        views(r@) == sorted_dedup(views(input@), style),
{
    let ghost inp = views(input@);
    let mut r: Vec<String> = Vec::new();
    proof {
        assert(is_sorted_dedup(views(r@), inp.take(0), style)) by {
            reveal(covers);
            reveal(from_first_occurrences);
        }
    }
    let mut i: usize = 0;
    while i < input.len()
        invariant
            inp == views(input@),
            i <= input.len(),
            is_sorted_dedup(views(r@), inp.take(i as int), style),
        decreases input.len() - i,
    {
        let x = &input[i];
        assert(inp[i as int] == x@);
        let mut j: usize = 0;
        while j < r.len() && compare_paths(r[j].as_str(), x.as_str(), style) == Order::Less
            invariant
                j <= r.len(),
                inp[i as int] == x@,
                forall|a: int| 0 <= a < j ==> path_lt(#[trigger] views(r@)[a], x@, style),
            decreases r.len() - j,
        {
            j += 1;
        }
        if j < r.len() && paths_same(r[j].as_str(), x.as_str(), style) {
            proof {
                lemma_sorted_dedup_skip(views(r@), inp, i as int, j as int, style);
            }
        } else {
            proof {
                if j < r.len() {
                    lemma_path_order(r@[j as int]@, x@, x@, style);
                }
                lemma_sorted_dedup_insert(views(r@), inp, i as int, j as int, style);
            }
            let y = x.clone();
            proof {
                lemma_views_insert(r@, j as int, y);
            }
            r.insert(j, y);
        }
        i += 1;
    }
    proof {
        assert(inp.take(input.len() as int) =~= inp);
        lemma_sorted_dedup_unique(views(r@), sorted_dedup(inp, style), inp, style);
    }
    r
}
/// The sorted, duplicate-free form of a single path is that path.
pub proof fn lemma_sorted_dedup_of_one(x: Seq<char>, style: PathStyle)
    ensures
        sorted_dedup(seq![x], style) == seq![x],
{
    let input = seq![x];
    let r = seq![x];
    assert(covers(r, input, style)) by {
        reveal(covers);
        assert(same_path(input[0], r[0], style));
    }
    assert(from_first_occurrences(r, input, style)) by {
        reveal(from_first_occurrences);
        assert(first_of_its_path(input, 0, style)) by {
            reveal(first_of_its_path);
        }
        assert(r[0] == input[0]);
    }
    assert(is_sorted_dedup(r, input, style));
    lemma_sorted_dedup_unique(sorted_dedup(input, style), r, input, style);
}

/// Both entries of a pair that are not the same path are first
/// occurrences.
proof fn lemma_pair_firsts(x: Seq<char>, y: Seq<char>, style: PathStyle)
    ensures
        first_of_its_path(seq![x, y], 0, style),
        !same_path(x, y, style) ==> first_of_its_path(seq![x, y], 1, style),
{
    reveal(first_of_its_path);
    let input = seq![x, y];
    if !same_path(x, y, style) {
        assert forall|k2: int| 0 <= k2 < 1 implies !same_path(#[trigger] input[k2], input[1], style) by {
            assert(input[k2] == x);
        }
    }
}

/// The sorted, duplicate-free form of two paths: the first alone when they
/// are the same path, else both in path order.
pub proof fn lemma_sorted_dedup_of_two(x: Seq<char>, y: Seq<char>, style: PathStyle)
    ensures
        same_path(x, y, style) ==> sorted_dedup(seq![x, y], style) == seq![x],
        path_lt(x, y, style) ==> sorted_dedup(seq![x, y], style) == seq![x, y],
        path_lt(y, x, style) ==> sorted_dedup(seq![x, y], style) == seq![y, x],
{
    let input = seq![x, y];
    lemma_path_order(x, y, x, style);
    lemma_path_order(y, x, y, style);
    lemma_pair_firsts(x, y, style);
    let r = if same_path(x, y, style) {
        seq![x]
    } else if path_lt(x, y, style) {
        seq![x, y]
    } else {
        seq![y, x]
    };
    assert(covers(r, input, style)) by {
        reveal(covers);
        assert(has_same_path(r, input[0], style)) by {
            if same_path(x, y, style) || path_lt(x, y, style) {
                assert(same_path(input[0], r[0], style));
            } else {
                assert(same_path(input[0], r[1], style));
            }
        }
        assert(has_same_path(r, input[1], style)) by {
            if same_path(x, y, style) {
                assert(same_path(input[1], r[0], style));
            } else if path_lt(x, y, style) {
                assert(same_path(input[1], r[1], style));
            } else {
                assert(same_path(input[1], r[0], style));
            }
        }
    }
    assert(from_first_occurrences(r, input, style)) by {
        reveal(from_first_occurrences);
        assert(is_first_occurrence(input, input[0], style));
        if !same_path(x, y, style) {
            assert(is_first_occurrence(input, input[1], style));
        }
        assert forall|m: int| 0 <= m < r.len() implies is_first_occurrence(input, #[trigger] r[m], style) by {
            if r[m] == x {
                assert(r[m] == input[0]);
            } else {
                assert(r[m] == input[1]);
            }
        }
    }
    assert(strictly_sorted(r, style));
    assert(is_sorted_dedup(r, input, style));
    lemma_sorted_dedup_unique(sorted_dedup(input, style), r, input, style);
}
} // verus!