//! Pools: lists in which a value is looked up by its first occurrence.

use crate::text::str_eq;
use vstd::prelude::*;

verus! {

/// The index at which `x` first occurs in `s`, or the length of `s` where it
/// does not occur.
pub open spec fn index_of<T>(s: Seq<T>, x: T) -> int
    decreases s.len(),
{
    if s.len() == 0 {
        0
    } else {
        let i = index_of(s.drop_last(), x);
        if i < s.len() - 1 {
            i
        } else if s.last() == x {
            s.len() - 1
        } else {
            s.len() as int
        }
    }
}

/// No value occurs twice.
pub open spec fn distinct<T>(s: Seq<T>) -> bool {
    forall|i: int, j: int| 0 <= i < j < s.len() ==> s[i] != s[j]
}

/// The views of a list of names.
pub open spec fn names(v: Seq<String>) -> Seq<Seq<char>> {
    Seq::new(v.len(), |i: int| v[i]@)
}

/// `index_of` is the least index that holds `x`, where there is one.
pub proof fn lemma_index_of<T>(s: Seq<T>, x: T)
    ensures
        0 <= index_of(s, x) <= s.len(),
        index_of(s, x) < s.len() ==> s[index_of(s, x)] == x,
        forall|j: int| 0 <= j < index_of(s, x) ==> s[j] != x,
    decreases s.len(),
{
    if s.len() > 0 {
        lemma_index_of(s.drop_last(), x);
        assert forall|j: int| 0 <= j < index_of(s, x) implies s[j] != x by {
            if j < s.len() - 1 {
                assert(s.drop_last()[j] == s[j]);
            }
        }
    }
}

/// An index that holds `x` with no `x` before it is `index_of`.
pub proof fn lemma_index_of_is<T>(s: Seq<T>, x: T, i: int)
    requires
        0 <= i <= s.len(),
        i < s.len() ==> s[i] == x,
        forall|j: int| 0 <= j < i ==> s[j] != x,
    ensures
        index_of(s, x) == i,
{
    lemma_index_of(s, x);
}

/// Looking a value up in a pool that has grown finds it where it was.
pub proof fn lemma_index_of_push<T>(s: Seq<T>, y: T, x: T)
    ensures
        index_of(s.push(y), x) == if index_of(s, x) < s.len() {
            index_of(s, x)
        } else if y == x {
            s.len() as int
        } else {
            s.len() as int + 1
        },
{
    lemma_index_of(s, x);
    assert(s.push(y).drop_last() =~= s);
}

/// The place of a number in a pool: its first index, or the pool's length.
pub fn find_bits(pool: &Vec<u64>, x: u64) -> (i: usize)
    ensures
        i == index_of(pool@, x),
{
    let mut i: usize = 0;
    while i < pool.len()
        invariant
            i <= pool.len(),
            forall|j: int| 0 <= j < i ==> pool@[j] != x,
        decreases pool.len() - i,
    {
        if pool[i] == x {
            proof {
                lemma_index_of_is(pool@, x, i as int);
            }
            return i;
        }
        i += 1;
    }
    proof {
        lemma_index_of_is(pool@, x, i as int);
    }
    i
}

/// The place of a name in a list of names: its first index, or the list's
/// length.
pub fn find_name(pool: &Vec<String>, name: &str) -> (i: usize)
    ensures
        i == index_of(names(pool@), name@),
{
    let mut i: usize = 0;
    while i < pool.len()
        invariant
            i <= pool.len(),
            forall|j: int| 0 <= j < i ==> names(pool@)[j] != name@,
        decreases pool.len() - i,
    {
        if str_eq(pool[i].as_str(), name) {
            proof {
                lemma_index_of_is(names(pool@), name@, i as int);
            }
            return i;
        }
        i += 1;
    }
    proof {
        lemma_index_of_is(names(pool@), name@, i as int);
    }
    i
}

} // verus!
