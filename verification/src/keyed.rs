use vstd::prelude::*;

verus! {

/// A record addressed by an integer key. The ledgers in this crate keep at
/// most one record per key in a sequence, and look records up by key.
pub trait Keyed {
    spec fn key(&self) -> u64;
}

/// No two records in the sequence carry the same key.
pub open spec fn distinct_keys<T: Keyed>(s: Seq<T>) -> bool {
    forall|i: int, j: int| 0 <= i < j < s.len() ==> s[i].key() != s[j].key()
}

/// Some record in the sequence carries key `k`.
pub open spec fn has_key<T: Keyed>(s: Seq<T>, k: u64) -> bool {
    exists|i: int| 0 <= i < s.len() && (#[trigger] s[i].key()) == k
}

/// The first record with key `k`, if any.
pub open spec fn find_rec<T: Keyed>(s: Seq<T>, k: u64) -> Option<T>
    decreases s.len(),
{
    if s.len() == 0 {
        None
    } else if s[0].key() == k {
        Some(s[0])
    } else {
        find_rec(s.skip(1), k)
    }
}

pub proof fn lemma_distinct_skip<T: Keyed>(s: Seq<T>)
    requires
        s.len() > 0,
        distinct_keys(s),
    ensures
        distinct_keys(s.skip(1)),
{
    assert forall|i: int, j: int| 0 <= i < j < s.skip(1).len() implies s.skip(1)[i].key()
        != s.skip(1)[j].key() by {
        assert(s.skip(1)[i] == s[i + 1]);
        assert(s.skip(1)[j] == s[j + 1]);
    }
}

/// `find_rec` returns `None` exactly when no record carries the key, and a
/// found record carries the key and sits in the sequence.
pub proof fn lemma_find_props<T: Keyed>(s: Seq<T>, k: u64)
    ensures
        match find_rec(s, k) {
            Option::None => !has_key(s, k),
            Option::Some(e) => e.key() == k && exists|i: int|
                0 <= i < s.len() && (#[trigger] s[i]) == e,
        },
    decreases s.len(),
{
    if s.len() == 0 {
    } else if s[0].key() == k {
        assert(s[0] == s[0]);
    } else {
        lemma_find_props(s.skip(1), k);
        match find_rec(s.skip(1), k) {
            Option::None => {
                assert forall|i: int| 0 <= i < s.len() implies (#[trigger] s[i].key()) != k by {
                    if i > 0 {
                        assert(s.skip(1)[i - 1] == s[i]);
                        assert(!has_key(s.skip(1), k));
                        assert(0 <= i - 1 < s.skip(1).len());
                    }
                }
            },
            Option::Some(e) => {
                let i = choose|i: int| 0 <= i < s.skip(1).len() && (#[trigger] s.skip(1)[i]) == e;
                assert(s.skip(1)[i] == s[i + 1]);
            },
        }
    }
}

/// Under distinct keys, the record found for `k` is the one that sits at any
/// position whose key is `k`.
pub proof fn lemma_find_at<T: Keyed>(s: Seq<T>, k: u64, i: int)
    requires
        distinct_keys(s),
        0 <= i < s.len(),
        s[i].key() == k,
    ensures
        find_rec(s, k) == Some(s[i]),
    decreases i,
{
    if i == 0 {
    } else {
        assert(s[0].key() != k);
        lemma_distinct_skip(s);
        assert(s.skip(1)[i - 1] == s[i]);
        lemma_find_at(s.skip(1), k, i - 1);
    }
}

/// Replacing the record at position `i` by one with the same key changes
/// exactly the record found under that key.
pub proof fn lemma_find_update<T: Keyed>(s: Seq<T>, i: int, e: T, k: u64)
    requires
        distinct_keys(s),
        0 <= i < s.len(),
        e.key() == s[i].key(),
    ensures
        distinct_keys(s.update(i, e)),
        find_rec(s.update(i, e), k) == (if k == e.key() {
            Some(e)
        } else {
            find_rec(s, k)
        }),
    decreases s.len(),
{
    let t = s.update(i, e);
    assert forall|p: int, q: int| 0 <= p < q < t.len() implies t[p].key() != t[q].key() by {
        assert(t[p].key() == s[p].key());
        assert(t[q].key() == s[q].key());
    }
    if i == 0 {
        assert(t[0] == e);
        if k != e.key() {
            assert(t.skip(1) =~= s.skip(1));
        }
    } else {
        assert(t[0] == s[0]);
        if k == s[0].key() {
            assert(s[0].key() != s[i].key());
        } else {
            lemma_distinct_skip(s);
            assert(t.skip(1) =~= s.skip(1).update(i - 1, e));
            assert(s.skip(1)[i - 1] == s[i]);
            lemma_find_update(s.skip(1), i - 1, e, k);
        }
    }
}

/// Appending a record under a fresh key changes exactly the record found
/// under that key.
pub proof fn lemma_find_push<T: Keyed>(s: Seq<T>, e: T, k: u64)
    requires
        distinct_keys(s),
        !has_key(s, e.key()),
    ensures
        distinct_keys(s.push(e)),
        has_key(s.push(e), e.key()),
        find_rec(s.push(e), k) == (if k == e.key() {
            Some(e)
        } else {
            find_rec(s, k)
        }),
    decreases s.len(),
{
    let t = s.push(e);
    assert(t[s.len() as int].key() == e.key());
    assert forall|p: int, q: int| 0 <= p < q < t.len() implies t[p].key() != t[q].key() by {
        if q == s.len() {
            assert(t[p] == s[p]);
            assert(t[q] == e);
            assert(s[p].key() != e.key());
        } else {
            assert(t[p] == s[p]);
            assert(t[q] == s[q]);
        }
    }
    if s.len() == 0 {
        assert(t[0] == e);
        if k == e.key() {
            assert(find_rec(t, k) == Some(e));
        } else {
            assert(t.skip(1) =~= Seq::<T>::empty());
            assert(find_rec(t.skip(1), k) == None::<T>);
            assert(find_rec(t, k) == None::<T>);
            assert(find_rec(s, k) == None::<T>);
        }
    } else {
        assert(t[0] == s[0]);
        if k == s[0].key() {
            assert(s[0].key() != e.key());
            assert(find_rec(t, k) == Some(s[0]));
            assert(find_rec(s, k) == Some(s[0]));
        } else {
            lemma_distinct_skip(s);
            assert(t.skip(1) =~= s.skip(1).push(e));
            assert forall|j: int| 0 <= j < s.skip(1).len() implies (#[trigger] s.skip(1)[j].key())
                != e.key() by {
                assert(s.skip(1)[j] == s[j + 1]);
            }
            assert(!has_key(s.skip(1), e.key()));
            lemma_find_push(s.skip(1), e, k);
        }
    }
}

/// A record found under a key witnesses `has_key`.
pub proof fn lemma_find_some_has_key<T: Keyed>(s: Seq<T>, k: u64)
    requires
        find_rec(s, k) is Some,
    ensures
        has_key(s, k),
{
    lemma_find_props(s, k);
    let e = find_rec(s, k)->Some_0;
    let i = choose|i: int| 0 <= i < s.len() && (#[trigger] s[i]) == e;
    assert(s[i].key() == k);
}

} // verus!
