//! Name-keyed association lists: the lookup function shared by the matchup
//! maps and the champion map, with its characterizing lemmas.

use vstd::prelude::*;

verus! {

/// The index of the first entry at or after `i` whose key reads `k`, or `-1`
/// if no such entry exists.
pub open spec fn find_key<T>(s: Seq<(String, T)>, k: Seq<char>, i: int) -> int
    decreases s.len() - i,
{
    if i >= s.len() {
        -1
    } else if s[i].0@ == k {
        i
    } else {
        find_key(s, k, i + 1)
    }
}

/// What [`find_key`] returns: either `-1` and no entry from `i` on has the
/// key, or the first index from `i` on whose entry has the key.
pub proof fn lemma_find_key_props<T>(s: Seq<(String, T)>, k: Seq<char>, i: int)
    requires
        0 <= i,
    ensures
        find_key(s, k, i) == -1 ==> forall|j: int| i <= j < s.len() ==> s[j].0@ != k,
        find_key(s, k, i) != -1 ==> {
            let r = find_key(s, k, i);
            &&& i <= r < s.len()
            &&& s[r].0@ == k
            &&& forall|j: int| i <= j < r ==> s[j].0@ != k
        },
    decreases s.len() - i,
{
    if i >= s.len() {
    } else if s[i].0@ == k {
    } else {
        lemma_find_key_props(s, k, i + 1);
    }
}

/// Lookup is unaffected by skipping over entries that do not match.
pub proof fn lemma_find_key_advance<T>(s: Seq<(String, T)>, k: Seq<char>, i: int, j: int)
    requires
        0 <= i <= j <= s.len(),
        forall|l: int| i <= l < j ==> (#[trigger] s[l].0)@ != k,
    ensures
        find_key(s, k, i) == find_key(s, k, j),
    decreases j - i,
{
    if i < j {
        lemma_find_key_advance(s, k, i + 1, j);
    }
}

/// Appending an entry leaves the result of a successful lookup unchanged,
/// and resolves a failed lookup exactly when the new entry's key matches.
pub proof fn lemma_find_key_push<T>(s: Seq<(String, T)>, k: Seq<char>, i: int, e: (String, T))
    requires
        0 <= i <= s.len(),
    ensures
        find_key(s, k, i) != -1 ==> find_key(s.push(e), k, i) == find_key(s, k, i),
        find_key(s, k, i) == -1 && e.0@ == k ==> find_key(s.push(e), k, i) == s.len(),
        find_key(s, k, i) == -1 && e.0@ != k ==> find_key(s.push(e), k, i) == -1,
    decreases s.len() - i,
{
    if i >= s.len() {
        assert(i == s.len());
        assert(s.push(e)[i] == e);
        assert(find_key(s.push(e), k, i + 1) == -1);
    } else {
        assert(s.push(e)[i] == s[i]);
        lemma_find_key_push(s, k, i + 1, e);
    }
}

/// Replacing an entry with one that keeps its key leaves every lookup
/// unchanged.
pub proof fn lemma_find_key_update<T>(
    s: Seq<(String, T)>,
    k: Seq<char>,
    i: int,
    j: int,
    e: (String, T),
)
    requires
        0 <= i,
        0 <= j < s.len(),
        e.0@ == s[j].0@,
    ensures
        find_key(s.update(j, e), k, i) == find_key(s, k, i),
    decreases s.len() - i,
{
    if i >= s.len() {
    } else {
        assert(s.update(j, e)[i].0@ == s[i].0@);
        lemma_find_key_update(s, k, i + 1, j, e);
    }
}

/// Finds the first entry of `v` whose key equals `name`, as an index.
pub fn find_index<T>(v: &Vec<(String, T)>, name: &String) -> (r: Option<usize>)
    ensures
        match r {
            Some(u) => find_key(v@, name@, 0) == u,
            None => find_key(v@, name@, 0) == -1,
        },
{
    let ghost s = v@;
    let mut j: usize = 0;
    while j < v.len()
        invariant
            0 <= j <= v.len(),
            s == v@,
            forall|l: int| 0 <= l < j ==> s[l].0@ != name@,
        decreases v.len() - j,
    {
        if v[j].0 == *name {
            proof {
                lemma_find_key_advance(s, name@, 0, j as int);
            }
            return Some(j);
        }
        j = j + 1;
    }
    proof {
        lemma_find_key_advance(s, name@, 0, j as int);
    }
    None
}

} // verus!
