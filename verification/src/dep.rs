//! Ordering domains by their `depends on` declarations, so that a domain's
//! dependencies come before it.

use vstd::prelude::*;

use crate::pdl::{domains_view, strs, Domain, SpecDomain};

verus! {

/// The first position of `x` in `names`.
pub open spec fn index_of(names: Seq<Seq<char>>, x: Seq<char>) -> Option<int>
    decreases names.len(),
{
    if names.len() == 0 {
        None
    } else if names[0] == x {
        Some(0)
    } else {
        match index_of(names.drop_first(), x) {
            Some(j) => Some(j + 1),
            None => None,
        }
    }
}

/// The positions of the named dependencies `deps` of the domain at
/// position `me` among `names`. A name that does not occur can never be
/// satisfied: it stands as a dependency of the domain on itself, which keeps
/// the domain (and whatever depends on it) out of the ordered part.
pub open spec fn resolve_deps(names: Seq<Seq<char>>, deps: Seq<Seq<char>>, me: int) -> Seq<int>
    decreases deps.len(),
{
    if deps.len() == 0 {
        Seq::empty()
    } else {
        let r = resolve_deps(names, deps.drop_last(), me);
        match index_of(names, deps.last()) {
            Some(j) => r.push(j),
            None => r.push(me),
        }
    }
}

/// The names of the domains.
pub open spec fn domain_names(ds: Seq<SpecDomain>) -> Seq<Seq<char>> {
    ds.map_values(|d: SpecDomain| d.name)
}

/// For each domain, the positions of the domains it depends on.
pub open spec fn dependency_graph(ds: Seq<SpecDomain>) -> Seq<Seq<int>> {
    Seq::new(ds.len(), |i: int| resolve_deps(domain_names(ds), ds[i].dependencies, i))
}

/// `order` lists each of `0..n` exactly once.
pub open spec fn is_permutation(order: Seq<int>, n: nat) -> bool {
    &&& order.len() == n
    &&& forall|k: int| 0 <= k < n ==> 0 <= #[trigger] order[k] < n
    &&& forall|a: int, b: int| 0 <= a < b < n ==> order[a] != order[b]
    &&& forall|x: int| 0 <= x < n ==> order.contains(x)
}

/// The first `m` entries of `order` each come after all of their
/// dependencies; the rest are the domains left over, in their original
/// order, each depending on another left-over domain.
pub open spec fn respects_dependencies(deps: Seq<Seq<int>>, order: Seq<int>, m: nat) -> bool {
    &&& m <= order.len()
    &&& forall|k: int, t: int|
        0 <= k < m && 0 <= t < deps[order[k]].len() ==> #[trigger] order.take(k).contains(
            deps[order[k]][t],
        )
    &&& forall|a: int, b: int| m <= a < b < order.len() ==> order[a] < order[b]
    &&& forall|k: int| m <= k < order.len() ==> #[trigger] waits(deps, order, m, k)
}

/// The entry at position `k` of `order` depends on a node that is not among
/// the first `m` entries.
pub open spec fn waits(deps: Seq<Seq<int>>, order: Seq<int>, m: nat, k: int) -> bool {
    exists|t: int|
        0 <= t < deps[order[k]].len() && !order.take(m as int).contains(#[trigger] deps[order[k]][t])
}

/// `rank` numbers the domains so that every dependency has a smaller
/// number than the domain depending on it: the dependencies form no cycle
/// and none names a domain that is not listed.
pub open spec fn ranks_dependencies(deps: Seq<Seq<int>>, rank: spec_fn(int) -> nat) -> bool {
    forall|i: int, t: int|
        0 <= i < deps.len() && 0 <= t < deps[i].len() ==> #[trigger] rank(deps[i][t]) < rank(i)
}

/// The result of sorting: each domain of `out` is the domain of `inp` at
/// `order`'s matching position.
pub open spec fn permuted(inp: Seq<SpecDomain>, out: Seq<SpecDomain>, order: Seq<int>) -> bool {
    &&& out.len() == order.len()
    &&& forall|k: int| 0 <= k < out.len() ==> #[trigger] out[k] == inp[order[k]]
}

// ---------------------------------------------------------------------------
// Counting helpers
// ---------------------------------------------------------------------------

/// How many entries of `s` are not in `placed`.
pub open spec fn unplaced_count(s: Seq<int>, placed: Seq<int>) -> nat
    decreases s.len(),
{
    if s.len() == 0 {
        0
    } else {
        unplaced_count(s.drop_last(), placed) + if placed.contains(s.last()) {
            0nat
        } else {
            1nat
        }
    }
}

/// How many entries of `s` equal `x`.
pub open spec fn occurrences(s: Seq<int>, x: int) -> nat
    decreases s.len(),
{
    if s.len() == 0 {
        0
    } else {
        occurrences(s.drop_last(), x) + if s.last() == x {
            1nat
        } else {
            0nat
        }
    }
}

proof fn lemma_unplaced_push(s: Seq<int>, placed: Seq<int>, x: int)
    requires
        !placed.contains(x),
    ensures
        unplaced_count(s, placed) == unplaced_count(s, placed.push(x)) + occurrences(s, x),
    decreases s.len(),
{
    if s.len() > 0 {
        lemma_unplaced_push(s.drop_last(), placed, x);
        assert(placed.push(x).contains(s.last()) <==> placed.contains(s.last()) || s.last()
            == x) by {
            if placed.push(x).contains(s.last()) {
                let k = choose|k: int| 0 <= k < placed.push(x).len() && placed.push(x)[k] == s.last();
                if k < placed.len() {
                    assert(placed[k] == s.last());
                }
            }
            if placed.contains(s.last()) {
                let k = choose|k: int| 0 <= k < placed.len() && placed[k] == s.last();
                assert(placed.push(x)[k] == s.last());
            }
            if s.last() == x {
                assert(placed.push(x)[placed.len() as int] == x);
            }
        }
    }
}

proof fn lemma_unplaced_zero(s: Seq<int>, placed: Seq<int>)
    ensures
        unplaced_count(s, placed) == 0 <==> forall|t: int| 0 <= t < s.len() ==> placed.contains(
            #[trigger] s[t],
        ),
    decreases s.len(),
{
    if s.len() > 0 {
        lemma_unplaced_zero(s.drop_last(), placed);
        assert forall|t: int| 0 <= t < s.len() - 1 implies s.drop_last()[t] == #[trigger] s[t] by {}
        if unplaced_count(s, placed) == 0 {
            assert forall|t: int| 0 <= t < s.len() implies placed.contains(#[trigger] s[t]) by {
                if t < s.len() - 1 {
                    assert(placed.contains(s.drop_last()[t]));
                }
            }
        }
        if forall|t: int| 0 <= t < s.len() ==> placed.contains(#[trigger] s[t]) {
            assert(placed.contains(s[s.len() - 1]));
            assert forall|t: int| 0 <= t < s.drop_last().len() implies placed.contains(
                #[trigger] s.drop_last()[t],
            ) by {
                assert(placed.contains(s[t]));
            }
        }
    }
}

proof fn lemma_occurrences_zero(s: Seq<int>, x: int)
    ensures
        occurrences(s, x) == 0 <==> !s.contains(x),
    decreases s.len(),
{
    if s.len() > 0 {
        lemma_occurrences_zero(s.drop_last(), x);
        if s.contains(x) {
            let k = choose|k: int| 0 <= k < s.len() && s[k] == x;
            if k < s.len() - 1 {
                assert(s.drop_last()[k] == x);
            }
        }
        if s.drop_last().contains(x) {
            let k = choose|k: int| 0 <= k < s.drop_last().len() && s.drop_last()[k] == x;
            assert(s[k] == x);
        }
    }
}

// ---------------------------------------------------------------------------
// Executable pieces
// ---------------------------------------------------------------------------

proof fn lemma_index_of(names: Seq<Seq<char>>, x: Seq<char>, k: int)
    requires
        0 <= k <= names.len(),
        forall|j: int| 0 <= j < k ==> names[j] != x,
    ensures
        k < names.len() && names[k] == x ==> index_of(names, x) == Some(k),
        k == names.len() ==> index_of(names, x) is None,
    decreases k,
{
    if k > 0 {
        assert(names.len() > 0 && names[0] != x);
        lemma_index_of(names.drop_first(), x, k - 1);
    } else if names.len() > 0 {
    }
}

/// The position of the first domain named `x`.
fn position(names: &Vec<String>, x: &String) -> (r: Option<usize>)
    ensures
        match r {
            Some(j) => index_of(strs(names@), x@) == Some(j as int),
            None => index_of(strs(names@), x@) is None,
        },
{
    let ghost ns = strs(names@);
    let mut k: usize = 0;
    while k < names.len()
        invariant
            ns == strs(names@),
            k <= names@.len(),
            forall|j: int| 0 <= j < k ==> ns[j] != x@,
        decreases names@.len() - k,
    {
        if names[k] == *x {
            proof {
                lemma_index_of(ns, x@, k as int);
            }
            return Some(k);
        }
        k = k + 1;
    }
    proof {
        lemma_index_of(ns, x@, k as int);
    }
    None
}

/// The positions of the domains that `deps` names, in `deps` order.
fn resolve(names: &Vec<String>, deps: &Vec<String>, me: usize) -> (r: Vec<usize>)
    requires
        me < names@.len(),
    ensures
        r@.map_values(|j: usize| j as int) == resolve_deps(strs(names@), strs(deps@), me as int),
        forall|t: int| 0 <= t < r@.len() ==> (#[trigger] r@[t]) < names@.len(),
{
    let mut r: Vec<usize> = Vec::new();
    let mut t: usize = 0;
    while t < deps.len()
        invariant
            t <= deps@.len(),
            me < names@.len(),
            r@.map_values(|j: usize| j as int) == resolve_deps(
                strs(names@),
                strs(deps@).take(t as int),
                me as int,
            ),
            forall|u: int| 0 <= u < r@.len() ==> (#[trigger] r@[u]) < names@.len(),
        decreases deps@.len() - t,
    {
        proof {
            assert(strs(deps@).take(t + 1).drop_last() =~= strs(deps@).take(t as int));
            assert(strs(deps@).take(t + 1).last() == deps@[t as int]@);
        }
        match position(names, &deps[t]) {
            Some(j) => {
                proof {
                    lemma_index_bound(strs(names@), deps@[t as int]@);
                }
                let ghost before = r@;
                r.push(j);
                assert(r@.map_values(|j: usize| j as int) =~= before.map_values(|j: usize| j as int).push(j as int));
            },
            None => {
                let ghost before = r@;
                r.push(me);
                assert(r@.map_values(|j: usize| j as int) =~= before.map_values(|j: usize| j as int).push(me as int));
            },
        }
        t = t + 1;
    }
    assert(strs(deps@).take(deps@.len() as int) =~= strs(deps@));
    r
}

proof fn lemma_index_bound(names: Seq<Seq<char>>, x: Seq<char>)
    ensures
        index_of(names, x) matches Some(j) ==> 0 <= j < names.len() && names[j] == x,
    decreases names.len(),
{
    if names.len() > 0 && names[0] != x {
        lemma_index_bound(names.drop_first(), x);
    }
}


// ---------------------------------------------------------------------------
// Kahn's algorithm over positions
// ---------------------------------------------------------------------------

/// The entries of `s` as integers.
pub open spec fn ints(s: Seq<usize>) -> Seq<int> {
    s.map_values(|j: usize| j as int)
}

/// The dependency lists held in `d`, as integers.
pub open spec fn graph_view(d: Seq<Vec<usize>>) -> Seq<Seq<int>> {
    Seq::new(d.len(), |i: int| ints(d[i]@))
}

/// Every dependency names a position of the graph.
pub open spec fn graph_in_range(g: Seq<Seq<int>>) -> bool {
    forall|i: int, t: int| 0 <= i < g.len() && 0 <= t < g[i].len() ==> 0 <= #[trigger] g[i][t] < g.len()
}

/// The first `r` entries of `order` are exactly the nodes without
/// dependencies, in ascending order.
pub open spec fn roots_first(deps: Seq<Seq<int>>, order: Seq<int>, r: nat) -> bool {
    &&& r <= order.len()
    &&& forall|k: int| 0 <= k < r ==> deps[#[trigger] order[k]].len() == 0
    &&& forall|k: int| r <= k < order.len() ==> deps[#[trigger] order[k]].len() > 0
    &&& forall|a: int, b: int| 0 <= a < b < r ==> order[a] < order[b]
}

proof fn lemma_unplaced_empty(s: Seq<int>)
    ensures
        unplaced_count(s, Seq::empty()) == s.len(),
    decreases s.len(),
{
    if s.len() > 0 {
        lemma_unplaced_empty(s.drop_last());
    }
}

proof fn lemma_take_push<A>(q: Seq<A>, v: A)
    ensures
        forall|k: int| 0 <= k <= q.len() ==> #[trigger] q.push(v).take(k) == q.take(k),
{
    assert forall|k: int| 0 <= k <= q.len() implies #[trigger] q.push(v).take(k) == q.take(k) by {
        assert(q.push(v).take(k) =~= q.take(k));
    }
}

proof fn lemma_ints_push(s: Seq<usize>, v: usize)
    ensures
        ints(s.push(v)) == ints(s).push(v as int),
{
    assert(ints(s.push(v)) =~= ints(s).push(v as int));
}

/// A duplicate-free sequence of numbers below `n` has at most `n` entries,
/// and exactly `n` when it holds all of them.
proof fn lemma_distinct_len(s: Seq<int>, n: int)
    requires
        0 <= n,
        forall|a: int, b: int| 0 <= a < b < s.len() ==> s[a] != s[b],
        forall|k: int| 0 <= k < s.len() ==> 0 <= #[trigger] s[k] < n,
    ensures
        s.len() <= n,
        (forall|x: int| 0 <= x < n ==> s.contains(x)) ==> s.len() == n,
{
    broadcast use vstd::seq_lib::group_seq_properties;

    assert(s.no_duplicates()) by {
        assert forall|i: int, j: int| 0 <= i < s.len() && 0 <= j < s.len() && i != j implies s[i]
            != s[j] by {
            if i < j {
            } else {
            }
        }
    }
    s.unique_seq_to_set();
    vstd::set_lib::lemma_int_range(0, n);
    assert(s.to_set().subset_of(vstd::set_lib::set_int_range(0, n))) by {
        assert forall|x: int| s.to_set().contains(x) implies vstd::set_lib::set_int_range(
            0,
            n,
        ).contains(x) by {
            assert(s.contains(x));
        }
    }
    vstd::set_lib::lemma_len_subset(s.to_set(), vstd::set_lib::set_int_range(0, n));
    if forall|x: int| 0 <= x < n ==> s.contains(x) {
        assert(vstd::set_lib::set_int_range(0, n).subset_of(s.to_set()));
        vstd::set_lib::lemma_len_subset(vstd::set_lib::set_int_range(0, n), s.to_set());
    }
}

/// How many times `x` occurs in `s`.
fn count_in(s: &Vec<usize>, x: usize) -> (c: usize)
    ensures
        c == occurrences(ints(s@), x as int),
{
    let mut c: usize = 0;
    let mut t: usize = 0;
    while t < s.len()
        invariant
            t <= s@.len(),
            c <= t,
            c == occurrences(ints(s@).take(t as int), x as int),
        decreases s@.len() - t,
    {
        proof {
            assert(ints(s@).take(t + 1).drop_last() =~= ints(s@).take(t as int));
        }
        if s[t] == x {
            c = c + 1;
        }
        t = t + 1;
    }
    proof {
        assert(ints(s@).take(s@.len() as int) =~= ints(s@));
    }
    c
}


/// Every entry of `q` before position `k` comes after its dependencies.
pub open spec fn deps_before(g: Seq<Seq<int>>, q: Seq<int>, len: int) -> bool {
    forall|k: int, t: int|
        0 <= k < len && 0 <= t < g[q[k]].len() ==> #[trigger] q.take(k).contains(g[q[k]][t])
}

/// The state of the queue while nodes are taken from it: `q` is the queue,
/// its first `head` entries have been taken, and `in_degree` counts for
/// each node the dependencies that have not been taken yet.
pub open spec fn kahn_inv(g: Seq<Seq<int>>, q: Seq<int>, head: int, in_degree: Seq<usize>, roots: nat) -> bool {
    let n = g.len();
    &&& in_degree.len() == n
    &&& 0 <= head <= q.len() <= n
    &&& forall|k: int| 0 <= k < q.len() ==> 0 <= #[trigger] q[k] < n
    &&& forall|a: int, b: int| 0 <= a < b < q.len() ==> q[a] != q[b]
    &&& forall|j: int| 0 <= j < n ==> #[trigger] in_degree[j] == unplaced_count(g[j], q.take(head))
    &&& forall|j: int| 0 <= j < n ==> (q.contains(j) <==> #[trigger] in_degree[j] == 0)
    &&& deps_before(g, q, q.len() as int)
    &&& roots_first(g, q, roots)
}

proof fn lemma_contains_push(s: Seq<int>, v: int)
    ensures
        forall|x: int| #[trigger] s.push(v).contains(x) <==> s.contains(x) || x == v,
{
    assert forall|x: int| #[trigger] s.push(v).contains(x) <==> s.contains(x) || x == v by {
        if s.contains(x) {
            let k = choose|k: int| 0 <= k < s.len() && s[k] == x;
            assert(s.push(v)[k] == x);
        }
        if x == v {
            assert(s.push(v)[s.len() as int] == x);
        }
        if s.push(v).contains(x) {
            let k = choose|k: int| 0 <= k < s.push(v).len() && s.push(v)[k] == x;
            if k < s.len() {
                assert(s[k] == x);
            }
        }
    }
}

proof fn lemma_take_contains(q: Seq<int>, h: int, x: int)
    requires
        0 <= h <= q.len(),
        q.take(h).contains(x),
    ensures
        q.contains(x),
{
    let k = choose|k: int| 0 <= k < q.take(h).len() && q.take(h)[k] == x;
    assert(q[k] == x);
}

proof fn lemma_occurrences_nonempty(s: Seq<int>, x: int)
    requires
        occurrences(s, x) > 0,
    ensures
        s.len() > 0,
        s.contains(x),
    decreases s.len(),
{
    if s.last() == x {
        assert(s[s.len() - 1] == x);
    } else {
        lemma_occurrences_nonempty(s.drop_last(), x);
        let t = choose|t: int| 0 <= t < s.drop_last().len() && s.drop_last()[t] == x;
        assert(s[t] == x);
    }
}

/// The position of `x` in `q`.
pub open spec fn pos_in(q: Seq<int>, x: int) -> int {
    choose|k: int| 0 <= k < q.len() && q[k] == x
}

/// The latest position in `q` of an entry of `ds` (-1 when `ds` is empty):
/// where the last of a node's dependencies was placed.
pub open spec fn last_pos(q: Seq<int>, ds: Seq<int>) -> int
    decreases ds.len(),
{
    if ds.len() == 0 {
        -1
    } else {
        let p = last_pos(q, ds.drop_last());
        let x = pos_in(q, ds.last());
        if x > p {
            x
        } else {
            p
        }
    }
}

/// Between positions `r` and `m`, the entries of `q` come in the order in
/// which they were queued: by the position of the last of their
/// dependencies to be placed, and in ascending order among those that
/// waited last on the same one.
pub open spec fn queued_in_order(g: Seq<Seq<int>>, q: Seq<int>, r: nat, m: nat) -> bool {
    forall|a: int, b: int|
        #![trigger q[a], q[b]]
        r <= a < b < m ==> last_pos(q, g[q[a]]) < last_pos(q, g[q[b]]) || (last_pos(q, g[q[a]])
            == last_pos(q, g[q[b]]) && q[a] < q[b])
}

/// No entry of `q` occurs twice.
pub open spec fn distinct_ints(q: Seq<int>) -> bool {
    forall|a: int, b: int| 0 <= a < b < q.len() ==> q[a] != q[b]
}

proof fn lemma_pos_in_prefix(q1: Seq<int>, q2: Seq<int>, x: int)
    requires
        q1.len() <= q2.len(),
        q2.take(q1.len() as int) == q1,
        distinct_ints(q2),
        q1.contains(x),
    ensures
        pos_in(q2, x) == pos_in(q1, x),
        0 <= pos_in(q1, x) < q1.len(),
        q1[pos_in(q1, x)] == x,
{
    let k = choose|k: int| 0 <= k < q1.len() && q1[k] == x;
    assert(q2[k] == x);
    let k2 = pos_in(q2, x);
    let k1 = pos_in(q1, x);
    assert(q1[k1] == q2[k1]);
    if k2 != k1 {
        if k2 < k1 {
            assert(q2[k2] != q2[k1]);
        } else {
            assert(q2[k1] != q2[k2]);
        }
    }
}

proof fn lemma_last_pos_prefix(q1: Seq<int>, q2: Seq<int>, ds: Seq<int>)
    requires
        q1.len() <= q2.len(),
        q2.take(q1.len() as int) == q1,
        distinct_ints(q2),
        forall|t: int| 0 <= t < ds.len() ==> q1.contains(#[trigger] ds[t]),
    ensures
        last_pos(q2, ds) == last_pos(q1, ds),
    decreases ds.len(),
{
    if ds.len() > 0 {
        assert(q1.contains(ds[ds.len() - 1]));
        lemma_pos_in_prefix(q1, q2, ds.last());
        assert forall|t: int| 0 <= t < ds.drop_last().len() implies q1.contains(#[trigger] ds.drop_last()[t]) by {
            assert(ds.drop_last()[t] == ds[t]);
        }
        lemma_last_pos_prefix(q1, q2, ds.drop_last());
    }
}

/// When every entry of `ds` was placed at or before position `p`, and one
/// of them at `p`, the last of them was placed at `p`.
proof fn lemma_last_pos_at(q: Seq<int>, ds: Seq<int>, p: int)
    requires
        0 <= p < q.len(),
        distinct_ints(q),
        forall|t: int| 0 <= t < ds.len() ==> q.take(p + 1).contains(#[trigger] ds[t]),
    ensures
        last_pos(q, ds) <= p,
        ds.contains(q[p]) ==> last_pos(q, ds) == p,
    decreases ds.len(),
{
    if ds.len() > 0 {
        let x = ds.last();
        assert(q.take(p + 1).contains(ds[ds.len() - 1]));
        lemma_pos_in_prefix(q.take(p + 1), q, x);
        assert forall|t: int| 0 <= t < ds.drop_last().len() implies q.take(p + 1).contains(
            #[trigger] ds.drop_last()[t],
        ) by {
            assert(ds.drop_last()[t] == ds[t]);
        }
        lemma_last_pos_at(q, ds.drop_last(), p);
        if ds.contains(q[p]) {
            if x != q[p] {
                let t = choose|t: int| 0 <= t < ds.len() && ds[t] == q[p];
                assert(ds.drop_last()[t] == q[p]);
            } else {
                assert(q.take(p + 1)[p] == q[p]);
                lemma_pos_in_prefix(q.take(p + 1), q, q[p]);
                if pos_in(q, x) != p {
                    let k = pos_in(q, x);
                    if k < p {
                        assert(q[k] != q[p]);
                    }
                }
            }
        }
    }
}

/// Queueing `j` after the last dependency it waited on, placed at `h`,
/// keeps the queue in order, provided every entry already queued waited on
/// one placed no later, and those that waited on `h` are smaller than `j`.
proof fn lemma_queue_push(g: Seq<Seq<int>>, q: Seq<int>, r: nat, qs: int, h: int, j: int)
    requires
        r <= qs <= q.len(),
        0 <= h < q.len(),
        distinct_ints(q.push(j)),
        deps_before(g, q, q.len() as int),
        queued_in_order(g, q, r, q.len()),
        forall|k: int| r <= k < qs ==> #[trigger] last_pos(q, g[q[k]]) < h,
        forall|k: int| qs <= k < q.len() ==> #[trigger] last_pos(q, g[q[k]]) == h && q[k] < j,
        forall|t: int| 0 <= t < g[j].len() ==> q.take(h + 1).contains(#[trigger] g[j][t]),
        g[j].contains(q[h]),
    ensures
        queued_in_order(g, q.push(j), r, q.len() + 1),
        forall|k: int| 0 <= k < q.len() ==> #[trigger] last_pos(q.push(j), g[q[k]]) == last_pos(q, g[q[k]]),
        last_pos(q.push(j), g[j]) == h,
{
    let q2 = q.push(j);
    assert(q2.take(q.len() as int) =~= q);
    assert(distinct_ints(q)) by {
        assert forall|a: int, b: int| 0 <= a < b < q.len() implies q[a] != q[b] by {
            assert(q2[a] == q[a]);
            assert(q2[b] == q[b]);
        }
    }
    assert forall|k: int| 0 <= k < q.len() implies #[trigger] last_pos(q2, g[q[k]]) == last_pos(q, g[q[k]]) by {
        assert forall|t: int| 0 <= t < g[q[k]].len() implies q.contains(#[trigger] g[q[k]][t]) by {
            assert(q.take(k).contains(g[q[k]][t]));
            lemma_take_contains(q, k, g[q[k]][t]);
        }
        lemma_last_pos_prefix(q, q2, g[q[k]]);
    }
    assert forall|t: int| 0 <= t < g[j].len() implies q2.take(h + 1).contains(#[trigger] g[j][t]) by {
        assert(q2.take(h + 1) =~= q.take(h + 1));
    }
    assert(q2[h] == q[h]);
    lemma_last_pos_at(q2, g[j], h);
    assert forall|a: int, b: int|
        #![trigger q2[a], q2[b]]
        r <= a < b < q.len() + 1 implies last_pos(q2, g[q2[a]]) < last_pos(q2, g[q2[b]]) || (last_pos(
            q2,
            g[q2[a]],
        ) == last_pos(q2, g[q2[b]]) && q2[a] < q2[b]) by {
        assert(q2[a] == q[a]);
        assert(last_pos(q2, g[q[a]]) == last_pos(q, g[q[a]]));
        if b < q.len() {
            assert(q2[b] == q[b]);
            assert(last_pos(q2, g[q[b]]) == last_pos(q, g[q[b]]));
        } else {
            assert(q2[b] == j);
            if a < qs {
                assert(last_pos(q, g[q[a]]) < h);
            } else {
                assert(last_pos(q, g[q[a]]) == h && q[a] < j);
            }
        }
    }
}

/// Appending nodes after the queued ones leaves the queued ones in order.
proof fn lemma_order_extends(g: Seq<Seq<int>>, f: Seq<int>, q: Seq<int>, r: nat)
    requires
        r <= f.len() <= q.len(),
        q.take(f.len() as int) == f,
        distinct_ints(q),
        deps_before(g, f, f.len() as int),
        queued_in_order(g, f, r, f.len()),
    ensures
        queued_in_order(g, q, r, f.len()),
{
    let m = f.len() as int;
    assert forall|k: int, t: int| 0 <= k < m && 0 <= t < g[f[k]].len() implies f.contains(
        #[trigger] g[f[k]][t],
    ) by {
        assert(f.take(k).contains(g[f[k]][t]));
        lemma_take_contains(f, k, g[f[k]][t]);
    }
    assert forall|a: int, b: int|
        #![trigger q[a], q[b]]
        r <= a < b < m implies last_pos(q, g[q[a]]) < last_pos(q, g[q[b]]) || (last_pos(q, g[q[a]])
            == last_pos(q, g[q[b]]) && q[a] < q[b]) by {
        assert(q[a] == f[a]);
        assert(q[b] == f[b]);
        lemma_last_pos_prefix(f, q, g[f[a]]);
        lemma_last_pos_prefix(f, q, g[f[b]]);
    }
}

/// Numbers the nodes `0..n` of the graph `deps`: first those without
/// dependencies in ascending order, then, as a queue, each node as soon as
/// every node it depends on has been numbered. Returns the order, the
/// count of dependencies left unnumbered for each node, and how many nodes
/// have no dependencies.
fn kahn_placed(deps: &Vec<Vec<usize>>) -> (res: (Vec<usize>, Vec<usize>, usize))
    requires
        graph_in_range(graph_view(deps@)),
    ensures
        kahn_inv(graph_view(deps@), ints(res.0@), res.0@.len() as int, res.1@, res.2 as nat),
        queued_in_order(graph_view(deps@), ints(res.0@), res.2 as nat, res.0@.len() as nat),
{
    let ghost g = graph_view(deps@);
    let n = deps.len();
    let mut in_degree: Vec<usize> = Vec::new();
    let mut queue: Vec<usize> = Vec::new();
    let mut i: usize = 0;
    while i < n
        invariant
            n == deps@.len(),
            g == graph_view(deps@),
            i <= n,
            in_degree@.len() == i,
            forall|j: int| 0 <= j < i ==> #[trigger] in_degree@[j] == g[j].len(),
            forall|k: int| 0 <= k < queue@.len() ==> 0 <= #[trigger] queue@[k] < i,
            forall|a: int, b: int| 0 <= a < b < queue@.len() ==> queue@[a] < queue@[b],
            forall|k: int| 0 <= k < queue@.len() ==> g[#[trigger] queue@[k] as int].len() == 0,
            forall|j: int| 0 <= j < i && g[j].len() == 0 ==> ints(queue@).contains(j),
        decreases n - i,
    {
        let d = deps[i].len();
        in_degree.push(d);
        let ghost q0 = ints(queue@);
        if d == 0 {
            proof {
                lemma_ints_push(queue@, i);
                lemma_contains_push(q0, i as int);
            }
            queue.push(i);
        }
        i = i + 1;
    }
    let roots = queue.len();
    proof {
        let q = ints(queue@);
        assert(q.take(0) =~= Seq::<int>::empty());
        assert forall|j: int| 0 <= j < n implies #[trigger] in_degree@[j] == unplaced_count(
            g[j],
            q.take(0),
        ) by {
            lemma_unplaced_empty(g[j]);
        }
        assert forall|j: int| 0 <= j < n implies (q.contains(j) <==> #[trigger] in_degree@[j] == 0) by {
            if q.contains(j) {
                let k = choose|k: int| 0 <= k < q.len() && q[k] == j;
                assert(g[queue@[k] as int].len() == 0);
            }
        }
        lemma_distinct_len(q, n as int);
    }
    let mut head: usize = 0;
    while head < queue.len()
        invariant
            n == deps@.len(),
            g == graph_view(deps@),
            graph_in_range(g),
            kahn_inv(g, ints(queue@), head as int, in_degree@, roots as nat),
            queued_in_order(g, ints(queue@), roots as nat, queue@.len() as nat),
            forall|k: int|
                roots <= k < queue@.len() ==> #[trigger] last_pos(ints(queue@), g[ints(queue@)[k]]) < head,
        decreases n - head,
    {
        let idx = queue[head];
        let ghost q0 = ints(queue@);
        let ghost old_placed = q0.take(head as int);
        assert(q0[head as int] == idx as int);
        head = head + 1;
        let ghost placed = q0.take(head as int);
        proof {
            assert(placed =~= old_placed.push(idx as int));
            if old_placed.contains(idx as int) {
                let k = choose|k: int| 0 <= k < old_placed.len() && old_placed[k] == idx as int;
                assert(q0[k] == q0[head - 1]);
            }
        }
        let mut j: usize = 0;
        while j < n
            invariant
                n == deps@.len(),
                g == graph_view(deps@),
                graph_in_range(g),
                0 < head <= q0.len(),
                j <= n,
                idx < n,
                placed == old_placed.push(idx as int),
                !old_placed.contains(idx as int),
                ints(queue@).take(head as int) == placed,
                in_degree@.len() == n,
                head <= queue@.len() <= n,
                forall|k: int| 0 <= k < queue@.len() ==> 0 <= #[trigger] ints(queue@)[k] < n,
                forall|a: int, b: int|
                    0 <= a < b < queue@.len() ==> ints(queue@)[a] != ints(queue@)[b],
                forall|jj: int|
                    0 <= jj < j ==> #[trigger] in_degree@[jj] == unplaced_count(g[jj], placed),
                forall|jj: int|
                    j <= jj < n ==> #[trigger] in_degree@[jj] == unplaced_count(g[jj], old_placed),
                forall|jj: int|
                    0 <= jj < n ==> (ints(queue@).contains(jj) <==> #[trigger] in_degree@[jj] == 0),
                deps_before(g, ints(queue@), queue@.len() as int),
                roots_first(g, ints(queue@), roots as nat),
                roots <= q0.len() <= queue@.len(),
                queued_in_order(g, ints(queue@), roots as nat, queue@.len() as nat),
                forall|k: int|
                    roots <= k < q0.len() ==> #[trigger] last_pos(ints(queue@), g[ints(queue@)[k]]) < head - 1,
                forall|k: int|
                    q0.len() <= k < queue@.len() ==> #[trigger] last_pos(ints(queue@), g[ints(queue@)[k]]) == head
                        - 1,
                forall|k: int| q0.len() <= k < queue@.len() ==> #[trigger] ints(queue@)[k] < j,
            decreases n - j,
        {
            let c = count_in(&deps[j], idx);
            proof {
                lemma_unplaced_push(g[j as int], old_placed, idx as int);
            }
            if c > 0 {
                let d = in_degree[j] - c;
                in_degree.set(j, d);
                if d == 0 {
                    let ghost q1 = ints(queue@);
                    proof {
                        lemma_unplaced_zero(g[j as int], placed);
                        lemma_occurrences_nonempty(g[j as int], idx as int);
                        lemma_ints_push(queue@, j);
                        lemma_take_push(q1, j as int);
                        lemma_contains_push(q1, j as int);
                        assert forall|t: int| 0 <= t < g[j as int].len() implies q1.contains(
                            #[trigger] g[j as int][t],
                        ) by {
                            assert(placed.contains(g[j as int][t]));
                            lemma_take_contains(q1, head as int, g[j as int][t]);
                        }
                    }
                    queue.push(j);
                    proof {
                        let q2 = ints(queue@);
                        assert(q2 == q1.push(j as int));
                        assert(!q1.contains(j as int));
                        assert(distinct_ints(q2)) by {
                            assert forall|a: int, b: int| 0 <= a < b < q2.len() implies q2[a] != q2[b] by {
                                if b == q1.len() {
                                    assert(q2[a] == q1[a]);
                                } else {
                                    assert(q2[a] == q1[a]);
                                    assert(q2[b] == q1[b]);
                                }
                            }
                        }
                        assert(q1[head - 1] == idx as int) by {
                            assert(q1.take(head as int)[head - 1] == idx as int);
                        }
                        assert forall|t: int| 0 <= t < g[j as int].len() implies q1.take(head - 1 + 1).contains(
                            #[trigger] g[j as int][t],
                        ) by {
                            assert(placed.contains(g[j as int][t]));
                        }
                        lemma_queue_push(g, q1, roots as nat, q0.len() as int, head - 1, j as int);
                        assert forall|k: int|
                            roots <= k < q0.len() implies #[trigger] last_pos(q2, g[q2[k]]) < head - 1 by {
                            assert(q2[k] == q1[k]);
                        }
                        assert forall|k: int|
                            q0.len() <= k < q2.len() implies #[trigger] last_pos(q2, g[q2[k]]) == head - 1 by {
                            if k < q1.len() {
                                assert(q2[k] == q1[k]);
                            }
                        }
                        assert forall|k: int| q0.len() <= k < q2.len() implies #[trigger] q2[k] < j + 1 by {
                            if k < q1.len() {
                                assert(q2[k] == q1[k]);
                            }
                        }
                        assert(q2.take(q1.len() as int) == q1);
                        assert forall|k: int, t: int|
                            0 <= k < q2.len() && 0 <= t < g[q2[k]].len() implies #[trigger] q2.take(
                            k,
                        ).contains(g[q2[k]][t]) by {
                            if k < q1.len() {
                                assert(q2.take(k) == q1.take(k));
                                assert(q2[k] == q1[k]);
                            }
                        }
                        assert(q2.take(head as int) == placed);
                        lemma_distinct_len(q2, n as int);
                    }
                }
            }
            j = j + 1;
        }
    }
    (queue, in_degree, roots)
}


/// Numbers the nodes `0..n` of the graph `deps` in dependency order.
/// Returns the order, how many nodes were placed after all of their
/// dependencies (the rest close a cycle or wait on such a node, and follow
/// in ascending order), and how many nodes have no dependencies.
fn topological_order(deps: &Vec<Vec<usize>>) -> (res: (Vec<usize>, usize, usize))
    requires
        graph_in_range(graph_view(deps@)),
    ensures
        is_permutation(ints(res.0@), deps@.len()),
        respects_dependencies(graph_view(deps@), ints(res.0@), res.1 as nat),
        roots_first(graph_view(deps@), ints(res.0@), res.2 as nat),
        queued_in_order(graph_view(deps@), ints(res.0@), res.2 as nat, res.1 as nat),
{
    let ghost g = graph_view(deps@);
    let n = deps.len();
    let (mut queue, in_degree, roots) = kahn_placed(deps);
    let m = queue.len();
    let ghost f = ints(queue@);
    proof {
        assert(f.take(m as int) =~= f);
    }
    let mut i: usize = 0;
    while i < n
        invariant
            n == deps@.len(),
            g == graph_view(deps@),
            kahn_inv(g, f, m as int, in_degree@, roots as nat),
            m == f.len(),
            i <= n,
            m <= queue@.len(),
            ints(queue@).take(m as int) == f,
            forall|k: int| 0 <= k < queue@.len() ==> 0 <= #[trigger] ints(queue@)[k] < n,
            forall|a: int, b: int|
                0 <= a < b < queue@.len() ==> ints(queue@)[a] != ints(queue@)[b],
            forall|k: int| m <= k < queue@.len() ==> #[trigger] ints(queue@)[k] < i,
            forall|k: int| m <= k < queue@.len() ==> in_degree@[#[trigger] ints(queue@)[k]] != 0,
            forall|a: int, b: int|
                m <= a < b < queue@.len() ==> ints(queue@)[a] < ints(queue@)[b],
            forall|j: int| 0 <= j < i ==> ints(queue@).contains(j),
        decreases n - i,
    {
        let ghost q1 = ints(queue@);
        proof {
            lemma_ints_push(queue@, i);
            lemma_take_push(q1, i as int);
            lemma_contains_push(q1, i as int);
        }
        if in_degree[i] != 0 {
            proof {
                if q1.contains(i as int) {
                    let k = choose|k: int| 0 <= k < q1.len() && q1[k] == i as int;
                    if k < m {
                        assert(f[k] == i as int);
                    }
                }
            }
            queue.push(i);
        } else {
            proof {
                assert(f.contains(i as int));
                lemma_take_contains(q1, m as int, i as int);
            }
        }
        i = i + 1;
    }
    let ghost q = ints(queue@);
    proof {
        lemma_distinct_len(q, n as int);
        assert forall|k: int, t: int|
            0 <= k < m && 0 <= t < g[q[k]].len() implies #[trigger] q.take(k).contains(
            g[q[k]][t],
        ) by {
            assert(q[k] == f[k]);
            assert(q.take(k) =~= f.take(k));
        }
        assert forall|k: int| m <= k < q.len() implies #[trigger] waits(g, q, m as nat, k) by {
            lemma_unplaced_zero(g[q[k]], f);
            assert(in_degree@[q[k]] != 0);
            assert(unplaced_count(g[q[k]], f) != 0);
            assert(q.take(m as int) == f);
        }
        assert(forall|a: int, b: int| m <= a < b < q.len() ==> q[a] < q[b]);
        assert(m <= q.len());
        assert forall|k: int| roots <= k < q.len() implies g[#[trigger] q[k]].len() > 0 by {
            if k >= m {
                if g[q[k]].len() == 0 {
                    lemma_unplaced_empty(g[q[k]]);
                    assert(unplaced_count(g[q[k]], f) == 0);
                }
            } else {
                assert(q[k] == f[k]);
            }
        }
        assert forall|k: int| 0 <= k < roots implies g[#[trigger] q[k]].len() == 0 by {
            assert(q[k] == f[k]);
        }
        assert forall|a: int, b: int| 0 <= a < b < roots implies q[a] < q[b] by {
            assert(q[a] == f[a]);
            assert(q[b] == f[b]);
        }
        assert(distinct_ints(q));
        assert(q.take(m as int) == f);
        lemma_order_extends(g, f, q, roots as nat);
    }
    (queue, m, roots)
}


// ---------------------------------------------------------------------------
// Sorting domains
// ---------------------------------------------------------------------------

/// For each domain, the positions of the domains it depends on.
fn dependency_indices(domains: &Vec<Domain>) -> (deps: Vec<Vec<usize>>)
    ensures
        graph_view(deps@) == dependency_graph(domains_view(domains@)),
        graph_in_range(graph_view(deps@)),
{
    let ghost ds = domains_view(domains@);
    let mut names: Vec<String> = Vec::new();
    let mut i: usize = 0;
    while i < domains.len()
        invariant
            i <= domains@.len(),
            ds == domains_view(domains@),
            strs(names@) == domain_names(ds).take(i as int),
        decreases domains@.len() - i,
    {
        let name = domains[i].name.clone();
        proof {
            lemma_strs_push_one(names@, name);
        }
        names.push(name);
        proof {
            assert(domain_names(ds).take(i + 1) =~= domain_names(ds).take(i as int).push(
                domains@[i as int].name@,
            ));
        }
        i = i + 1;
    }
    proof {
        assert(domain_names(ds).take(domains@.len() as int) =~= domain_names(ds));
    }
    let mut deps: Vec<Vec<usize>> = Vec::new();
    let mut i: usize = 0;
    while i < domains.len()
        invariant
            i <= domains@.len(),
            ds == domains_view(domains@),
            strs(names@) == domain_names(ds),
            names@.len() == domains@.len(),
            deps@.len() == i,
            forall|j: int| 0 <= j < i ==> #[trigger] graph_view(deps@)[j] == dependency_graph(ds)[j],
            forall|j: int, t: int|
                0 <= j < i && 0 <= t < deps@[j]@.len() ==> #[trigger] deps@[j]@[t] < domains@.len(),
        decreases domains@.len() - i,
    {
        let r = resolve(&names, &domains[i].dependencies, i);
        let ghost before = deps@;
        deps.push(r);
        proof {
            assert forall|j: int| 0 <= j < i + 1 implies #[trigger] graph_view(deps@)[j]
                == dependency_graph(ds)[j] by {
                if j < i {
                    assert(deps@[j] == before[j]);
                    assert(graph_view(before)[j] == dependency_graph(ds)[j]);
                    assert(graph_view(deps@)[j] == graph_view(before)[j]);
                } else {
                    assert(ds[j].dependencies == strs(domains@[j].dependencies@));
                    assert(ints(r@) =~= r@.map_values(|j: usize| j as int));
                    assert(deps@[j] == r);
                    assert(graph_view(deps@)[j] == ints(r@));
                    assert(dependency_graph(ds)[j] == resolve_deps(domain_names(ds), ds[j].dependencies, j));
                }
            }
        }
        i = i + 1;
    }
    proof {
        assert(graph_view(deps@) =~= dependency_graph(ds));
        assert forall|j: int, t: int|
            0 <= j < graph_view(deps@).len() && 0 <= t < graph_view(deps@)[j].len() implies 0
            <= #[trigger] graph_view(deps@)[j][t] < graph_view(deps@).len() by {
            assert(deps@[j]@[t] < domains@.len());
        }
    }
    deps
}

proof fn lemma_strs_push_one(v: Seq<String>, x: String)
    ensures
        strs(v.push(x)) == strs(v).push(x@),
{
    assert(strs(v.push(x)) =~= strs(v).push(x@));
}

/// How the domains `after` come out of sorting `before`: `order` lists for
/// each output position the input position of its domain. The first `m`
/// domains each follow every domain they depend on, the first `r` of them
/// being those that depend on nothing, in their input order, and the others
/// coming as they were queued: after the last of their dependencies, and in
/// input order among those whose last dependency is the same domain. The
/// rest are left over from cycles and missing names, in input order.
pub open spec fn sorted_as(
    before: Seq<SpecDomain>,
    after: Seq<SpecDomain>,
    order: Seq<int>,
    m: nat,
    r: nat,
) -> bool {
    let g = dependency_graph(before);
    &&& is_permutation(order, before.len())
    &&& permuted(before, after, order)
    &&& respects_dependencies(g, order, m)
    &&& roots_first(g, order, r)
    &&& queued_in_order(g, order, r, m)
}

/// `after` is a result of sorting `before` by dependencies.
pub open spec fn sort_outcome(before: Seq<SpecDomain>, after: Seq<SpecDomain>) -> bool {
    exists|order: Seq<int>, m: nat, r: nat| sorted_as(before, after, order, m, r)
}

/// Sorts `domains` in place so that each domain comes after every domain
/// it declares a `depends on` relationship with.
///
/// Domains without dependencies keep their relative order and come first.
/// Every other domain follows as soon as the last of its dependencies has
/// been placed; domains freed by the same one follow in their original
/// order. Domains caught in a cycle, domains that depend on a name that is
/// not listed, and domains waiting on either are placed at the end in their
/// original order.
pub fn topological_sort(domains: &mut Vec<Domain>)
    ensures
        sort_outcome(domains_view(old(domains)@), domains_view(final(domains)@)),
{
    let ghost before = domains_view(domains@);
    let deps = dependency_indices(domains);
    let (order, m, roots) = topological_order(&deps);
    let n = domains.len();
    assert(graph_view(deps@).len() == n);
    let mut original: Vec<Domain> = Vec::new();
    std::mem::swap(domains, &mut original);
    let ghost orig = original@;
    let mut rev: Vec<Option<Domain>> = Vec::new();
    while original.len() > 0
        invariant
            orig.len() == n,
            rev@.len() + original@.len() == n,
            original@ == orig.take(original@.len() as int),
            forall|k: int| 0 <= k < rev@.len() ==> #[trigger] rev@[k] == Some(orig[n - 1 - k]),
        decreases original@.len(),
    {
        let d = original.pop().unwrap();
        rev.push(Some(d));
        proof {
            assert(original@ =~= orig.take(original@.len() as int));
        }
    }
    let ghost o = ints(order@);
    let mut result: Vec<Domain> = Vec::new();
    let mut k: usize = 0;
    while k < n
        invariant
            orig.len() == n,
            before == domains_view(orig),
            is_permutation(o, n as nat),
            o == ints(order@),
            k <= n,
            rev@.len() == n,
            result@.len() == k,
            forall|j: int| 0 <= j < k ==> #[trigger] result@[j] == orig[o[j]],
            forall|x: int|
                0 <= x < n ==> (#[trigger] rev@[n - 1 - x] == if o.take(k as int).contains(x) {
                    None
                } else {
                    Some(orig[x])
                }),
        decreases n - k,
    {
        let i = order[k];
        assert(o[k as int] == i as int);
        proof {
            if o.take(k as int).contains(i as int) {
                let j = choose|j: int| 0 <= j < k && o.take(k as int)[j] == i as int;
                assert(o[j] == o[k as int]);
            }
        }
        let slot = rev[n - 1 - i].take();
        match slot {
            Some(d) => {
                result.push(d);
            },
            None => {
                proof {
                    assert(false);
                }
            },
        }
        proof {
            lemma_contains_push(o.take(k as int), i as int);
            assert(o.take(k + 1) =~= o.take(k as int).push(i as int));
        }
        k = k + 1;
    }
    *domains = result;
    proof {
        assert(domains_view(result@).len() == n);
        assert forall|j: int| 0 <= j < n implies #[trigger] domains_view(result@)[j] == before[o[j]] by {
        }
        assert(sorted_as(before, domains_view(result@), o, m as nat, roots as nat));
    }
}


// ---------------------------------------------------------------------------
// Laws
// ---------------------------------------------------------------------------

proof fn lemma_resolve_in_range(names: Seq<Seq<char>>, deps: Seq<Seq<char>>, me: int)
    requires
        0 <= me < names.len(),
    ensures
        forall|t: int|
            0 <= t < resolve_deps(names, deps, me).len() ==> 0 <= #[trigger] resolve_deps(
                names,
                deps,
                me,
            )[t] < names.len(),
    decreases deps.len(),
{
    if deps.len() > 0 {
        let r = resolve_deps(names, deps.drop_last(), me);
        lemma_resolve_in_range(names, deps.drop_last(), me);
        lemma_index_bound(names, deps.last());
        assert forall|t: int| 0 <= t < resolve_deps(names, deps, me).len() implies 0
            <= #[trigger] resolve_deps(names, deps, me)[t] < names.len() by {
            if t < r.len() {
                assert(r[t] == resolve_deps(names, deps, me)[t]);
            }
        }
    }
}

/// The dependency graph of any list of domains only names its own positions.
proof fn lemma_graph_in_range(ds: Seq<SpecDomain>)
    ensures
        graph_in_range(dependency_graph(ds)),
{
    assert forall|i: int, t: int|
        0 <= i < dependency_graph(ds).len() && 0 <= t < dependency_graph(ds)[i].len() implies 0
        <= #[trigger] dependency_graph(ds)[i][t] < dependency_graph(ds).len() by {
        lemma_resolve_in_range(domain_names(ds), ds[i].dependencies, i);
    }
}

/// No node left over after position `m` has a rank below `bound`.
proof fn lemma_waiting_rank(
    g: Seq<Seq<int>>,
    order: Seq<int>,
    m: nat,
    rank: spec_fn(int) -> nat,
    bound: nat,
)
    requires
        graph_in_range(g),
        is_permutation(order, g.len()),
        respects_dependencies(g, order, m),
        ranks_dependencies(g, rank),
    ensures
        forall|k: int| m <= k < order.len() ==> #[trigger] rank(order[k]) >= bound,
    decreases bound,
{
    if bound > 0 {
        lemma_waiting_rank(g, order, m, rank, (bound - 1) as nat);
        assert forall|k: int| m <= k < order.len() implies #[trigger] rank(order[k]) >= bound by {
            if rank(order[k]) < bound {
                assert(waits(g, order, m, k));
                let t = choose|t: int|
                    0 <= t < g[order[k]].len() && !order.take(m as int).contains(
                        #[trigger] g[order[k]][t],
                    );
                let d = g[order[k]][t];
                assert(0 <= d < g.len());
                assert(order.contains(d));
                let p = choose|p: int| 0 <= p < order.len() && order[p] == d;
                if p < m {
                    assert(order.take(m as int)[p] == d);
                }
                assert(rank(order[p]) >= bound - 1);
                assert(rank(d) < rank(order[k]));
            }
        }
    }
}

/// When the dependencies form no cycle (some ranking puts every dependency
/// below the domain that depends on it), sorting places every domain after
/// all of the listed domains it depends on, and leaves none over.
pub proof fn law_acyclic_dependencies_all_ordered(
    before: Seq<SpecDomain>,
    after: Seq<SpecDomain>,
    rank: spec_fn(int) -> nat,
)
    requires
        sort_outcome(before, after),
        ranks_dependencies(dependency_graph(before), rank),
    ensures
        exists|order: Seq<int>|
            {
                &&& is_permutation(order, before.len())
                &&& permuted(before, after, order)
                &&& respects_dependencies(dependency_graph(before), order, before.len())
            },
{
    let (order, m, r) = choose|order: Seq<int>, m: nat, r: nat|
        sorted_as(before, after, order, m, r);
    let g = dependency_graph(before);
    lemma_graph_in_range(before);
    if m < order.len() {
        lemma_waiting_rank(g, order, m, rank, rank(order[m as int]) + 1);
        assert(rank(order[m as int]) >= rank(order[m as int]) + 1);
    }
    assert(respects_dependencies(g, order, before.len()));
}

proof fn lemma_ascending_at_least(s: Seq<int>, k: int)
    requires
        0 <= k < s.len(),
        forall|i: int| 0 <= i < s.len() ==> 0 <= #[trigger] s[i],
        forall|a: int, b: int| 0 <= a < b < s.len() ==> s[a] < s[b],
    ensures
        s[k] >= k,
    decreases k,
{
    if k > 0 {
        lemma_ascending_at_least(s, k - 1);
    }
}

proof fn lemma_ascending_at_most(s: Seq<int>, n: int, k: int)
    requires
        s.len() == n,
        0 <= k < n,
        forall|i: int| 0 <= i < n ==> #[trigger] s[i] < n,
        forall|a: int, b: int| 0 <= a < b < n ==> s[a] < s[b],
    ensures
        s[k] <= k,
    decreases n - k,
{
    if k < n - 1 {
        lemma_ascending_at_most(s, n, k + 1);
    }
}

/// When no domain depends on another listed domain, sorting keeps the
/// domains exactly as they were.
pub proof fn law_independent_domains_keep_order(before: Seq<SpecDomain>, after: Seq<SpecDomain>)
    requires
        sort_outcome(before, after),
        forall|i: int| 0 <= i < before.len() ==> (#[trigger] dependency_graph(before)[i]).len() == 0,
    ensures
        after == before,
{
    let (order, m, r) = choose|order: Seq<int>, m: nat, r: nat|
        sorted_as(before, after, order, m, r);
    let n = before.len() as int;
    if r < n {
        assert(dependency_graph(before)[order[r as int]].len() > 0);
    }
    assert forall|k: int| 0 <= k < n implies #[trigger] order[k] == k by {
        lemma_ascending_at_least(order, k);
        lemma_ascending_at_most(order, n, k);
    }
    assert(after =~= before);
}

proof fn lemma_index_of_found(names: Seq<Seq<char>>, x: Seq<char>)
    ensures
        match index_of(names, x) {
            Some(j) => 0 <= j < names.len() && names[j] == x,
            None => true,
        },
    decreases names.len(),
{
    if names.len() > 0 && names[0] != x {
        lemma_index_of_found(names.drop_first(), x);
    }
}

proof fn lemma_resolve_entry(names: Seq<Seq<char>>, deps: Seq<Seq<char>>, me: int, t: int)
    requires
        0 <= t < deps.len(),
    ensures
        resolve_deps(names, deps, me).len() == deps.len(),
        resolve_deps(names, deps, me)[t] == match index_of(names, deps[t]) {
            Some(j) => j,
            None => me,
        },
    decreases deps.len(),
{
    lemma_resolve_len(names, deps, me);
    lemma_resolve_len(names, deps.drop_last(), me);
    if t < deps.len() - 1 {
        lemma_resolve_entry(names, deps.drop_last(), me, t);
        assert(deps.drop_last()[t] == deps[t]);
    }
}

proof fn lemma_resolve_len(names: Seq<Seq<char>>, deps: Seq<Seq<char>>, me: int)
    ensures
        resolve_deps(names, deps, me).len() == deps.len(),
    decreases deps.len(),
{
    if deps.len() > 0 {
        lemma_resolve_len(names, deps.drop_last(), me);
    }
}

/// When the dependencies form no cycle and every one names a listed
/// domain, each domain of the result comes after a domain of every name it
/// depends on.
pub proof fn law_dependencies_come_first_by_name(
    before: Seq<SpecDomain>,
    after: Seq<SpecDomain>,
    rank: spec_fn(int) -> nat,
    a: int,
    d: Seq<char>,
)
    requires
        sort_outcome(before, after),
        ranks_dependencies(dependency_graph(before), rank),
        0 <= a < after.len(),
        after[a].dependencies.contains(d),
    ensures
        exists|b: int| 0 <= b < a && #[trigger] after[b].name == d,
{
    law_acyclic_dependencies_all_ordered(before, after, rank);
    let g = dependency_graph(before);
    let names = domain_names(before);
    let order = choose|order: Seq<int>|
        {
            &&& is_permutation(order, before.len())
            &&& permuted(before, after, order)
            &&& respects_dependencies(g, order, before.len())
        };
    let i = order[a];
    assert(after[a] == before[i]);
    let deps = before[i].dependencies;
    let t = choose|t: int| 0 <= t < deps.len() && deps[t] == d;
    lemma_resolve_entry(names, deps, i, t);
    lemma_index_of_found(names, d);
    assert(g[i] == resolve_deps(names, deps, i));
    match index_of(names, d) {
        Some(j) => {
            assert(g[order[a]][t] == j);
            assert(order.take(a).contains(g[order[a]][t]));
            let b = choose|b: int| 0 <= b < order.take(a).len() && order.take(a)[b] == j;
            assert(order[b] == j);
            assert(after[b] == before[j]);
            assert(names[j] == before[j].name);
        },
        None => {
            assert(g[i][t] == i);
            assert(rank(g[i][t]) < rank(i));
        },
    }
}

} // verus!
