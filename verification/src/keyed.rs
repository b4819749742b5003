//! Lists of entries keyed by a string, read as maps: the model behind the
//! keyed collections of the library, where no key occurs twice.

use vstd::prelude::*;

use crate::text::{chars_of, eq_str};

verus! {

/// The entries of `v`, by key.
pub open spec fn keyed<E>(v: Seq<(String, E)>) -> Map<Seq<char>, E> {
    Map::new(
        |k: Seq<char>| exists|i: int| 0 <= i < v.len() && #[trigger] v[i].0@ == k,
        |k: Seq<char>| v[choose|i: int| 0 <= i < v.len() && #[trigger] v[i].0@ == k].1,
    )
}

/// No key occurs twice.
pub open spec fn distinct_keys<E>(v: Seq<(String, E)>) -> bool {
    forall|i: int, j: int| 0 <= i < v.len() && 0 <= j < v.len() && i != j ==> v[i].0@ != v[j].0@
}

pub proof fn lemma_keyed_index<E>(v: Seq<(String, E)>, i: int)
    requires
        distinct_keys(v),
        0 <= i < v.len(),
    ensures
        keyed(v).contains_key(v[i].0@),
        keyed(v)[v[i].0@] == v[i].1,
{
    let k = v[i].0@;
    assert(exists|j: int| 0 <= j < v.len() && #[trigger] v[j].0@ == k);
    let j = choose|j: int| 0 <= j < v.len() && #[trigger] v[j].0@ == k;
    assert(j == i);
}

pub proof fn lemma_keyed_remove<E>(v: Seq<(String, E)>, i: int)
    requires
        distinct_keys(v),
        0 <= i < v.len(),
    ensures
        distinct_keys(v.remove(i)),
        keyed(v.remove(i)) == keyed(v).remove(v[i].0@),
{
    let w = v.remove(i);
    let k0 = v[i].0@;
    assert forall|j: int| 0 <= j < w.len() implies #[trigger] w[j] == (if j < i {
        v[j]
    } else {
        v[j + 1]
    }) by {}
    assert(distinct_keys(w)) by {
        assert forall|a: int, b: int| 0 <= a < w.len() && 0 <= b < w.len() && a != b implies w[a].0@
            != w[b].0@ by {
            let a2 = if a < i { a } else { a + 1 };
            let b2 = if b < i { b } else { b + 1 };
            assert(w[a] == v[a2] && w[b] == v[b2]);
        }
    }
    assert forall|k: Seq<char>| #[trigger] keyed(w).contains_key(k) <==> keyed(v).remove(k0).contains_key(k) by {
        if keyed(w).contains_key(k) {
            let j = choose|j: int| 0 <= j < w.len() && #[trigger] w[j].0@ == k;
            let j2 = if j < i { j } else { j + 1 };
            assert(w[j] == v[j2]);
            assert(j2 != i);
        }
        if keyed(v).contains_key(k) && k != k0 {
            let j = choose|j: int| 0 <= j < v.len() && #[trigger] v[j].0@ == k;
            if j < i {
                assert(w[j] == v[j]);
            } else {
                assert(w[j - 1] == v[j]);
            }
        }
    }
    assert forall|k: Seq<char>| #[trigger] keyed(w).contains_key(k) implies keyed(w)[k]
        == keyed(v).remove(k0)[k] by {
        let j = choose|j: int| 0 <= j < w.len() && #[trigger] w[j].0@ == k;
        lemma_keyed_index(w, j);
        let j2 = if j < i { j } else { j + 1 };
        assert(w[j] == v[j2]);
        lemma_keyed_index(v, j2);
    }
    assert(keyed(w) =~= keyed(v).remove(k0));
}

pub proof fn lemma_keyed_push<E>(v: Seq<(String, E)>, e: (String, E))
    requires
        distinct_keys(v),
        !keyed(v).contains_key(e.0@),
    ensures
        distinct_keys(v.push(e)),
        keyed(v.push(e)) == keyed(v).insert(e.0@, e.1),
{
    let w = v.push(e);
    assert(distinct_keys(w)) by {
        assert forall|a: int, b: int| 0 <= a < w.len() && 0 <= b < w.len() && a != b implies w[a].0@
            != w[b].0@ by {
            if a < v.len() && b < v.len() {
            } else if a < v.len() {
                if v[a].0@ == e.0@ {
                    assert(keyed(v).contains_key(e.0@));
                }
            } else {
                if v[b].0@ == e.0@ {
                    assert(keyed(v).contains_key(e.0@));
                }
            }
        }
    }
    assert forall|k: Seq<char>| #[trigger] keyed(w).contains_key(k) <==> keyed(v).insert(e.0@, e.1).contains_key(k) by {
        if keyed(w).contains_key(k) {
            let j = choose|j: int| 0 <= j < w.len() && #[trigger] w[j].0@ == k;
            if j < v.len() {
                assert(v[j].0@ == k);
            }
        }
        if keyed(v).contains_key(k) {
            let j = choose|j: int| 0 <= j < v.len() && #[trigger] v[j].0@ == k;
            assert(w[j].0@ == k);
        }
        if k == e.0@ {
            assert(w[v.len() as int].0@ == k);
        }
    }
    assert forall|k: Seq<char>| #[trigger] keyed(w).contains_key(k) implies keyed(w)[k]
        == keyed(v).insert(e.0@, e.1)[k] by {
        let j = choose|j: int| 0 <= j < w.len() && #[trigger] w[j].0@ == k;
        lemma_keyed_index(w, j);
        if j < v.len() {
            lemma_keyed_index(v, j);
        }
    }
    assert(keyed(w) =~= keyed(v).insert(e.0@, e.1));
}

/// Where the entry with key `id` stands, if there is one.
pub fn position_of<E>(v: &Vec<(String, E)>, id: &str) -> (r: Option<usize>)
    requires
        distinct_keys(v@),
    ensures
        match r {
            Some(i) => i < v@.len() && v@[i as int].0@ == id@,
            None => !keyed(v@).contains_key(id@),
        },
{
    let key = chars_of(id);
    let mut i: usize = 0;
    while i < v.len()
        invariant
            i <= v@.len(),
            key@ == id@,
            forall|j: int| 0 <= j < i ==> v@[j].0@ != id@,
        decreases v@.len() - i,
    {
        if eq_str(key.as_slice(), v[i].0.as_str()) {
            return Some(i);
        }
        i = i + 1;
    }
    None
}

} // verus!
