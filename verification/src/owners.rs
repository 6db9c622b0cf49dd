use crate::account::AccountId;
use crate::keyed::{
    distinct_keys, find_rec, has_key, lemma_find_at, lemma_find_props, lemma_find_push,
    lemma_find_some_has_key, lemma_find_update, Keyed,
};
use vstd::pervasive::VecAdditionalExecFns;
use vstd::prelude::*;

verus! {

/// One holder's stake in one item: how many copies the holder owns, how many
/// of them the holder has listed for resale, and at what per-copy price.
/// A listing never exceeds what is owned.
#[derive(Clone, Copy, Debug, PartialEq, Eq, Structural)]
pub struct OwnershipEntry {
    pub holder: AccountId,
    pub copies_owned: u32,
    pub copies_listed: u32,
    pub listed_price: u128,
}

impl Keyed for OwnershipEntry {
    open spec fn key(&self) -> u64 {
        self.holder
    }
}

/// Total copies owned across all entries.
pub open spec fn sum_owned(s: Seq<OwnershipEntry>) -> int
    decreases s.len(),
{
    if s.len() == 0 {
        0
    } else {
        s[0].copies_owned + sum_owned(s.skip(1))
    }
}

/// Copies of the item that account `a` owns, zero when it holds no entry.
pub open spec fn copies_of(s: Seq<OwnershipEntry>, a: AccountId) -> int {
    match find_rec(s, a) {
        Option::Some(e) => e.copies_owned as int,
        Option::None => 0,
    }
}

/// Every entry lists at most as many copies as it owns.
pub open spec fn listings_ok(s: Seq<OwnershipEntry>) -> bool {
    forall|i: int| 0 <= i < s.len() ==> (#[trigger] s[i]).copies_listed <= s[i].copies_owned
}

/// The entry account `a` holds, or a fresh zero entry at price `price` when it
/// holds none yet.
pub open spec fn entry_or(s: Seq<OwnershipEntry>, a: AccountId, price: u128) -> OwnershipEntry {
    match find_rec(s, a) {
        Option::Some(e) => e,
        Option::None => OwnershipEntry {
            holder: a,
            copies_owned: 0,
            copies_listed: 0,
            listed_price: price,
        },
    }
}

/// The entry of `a` after `amt` copies were credited to it; a holder new to
/// the item starts with nothing listed, at fallback price `price`.
pub open spec fn credited_entry(
    s: Seq<OwnershipEntry>,
    a: AccountId,
    amt: u32,
    price: u128,
) -> OwnershipEntry {
    let e = entry_or(s, a, price);
    OwnershipEntry {
        holder: a,
        copies_owned: (e.copies_owned + amt) as u32,
        copies_listed: e.copies_listed,
        listed_price: e.listed_price,
    }
}

/// The entry of `a` after `amt` listed copies were sold out of it.
pub open spec fn debited_entry(s: Seq<OwnershipEntry>, a: AccountId, amt: u32) -> OwnershipEntry {
    let e = entry_or(s, a, 0);
    OwnershipEntry {
        holder: a,
        copies_owned: (e.copies_owned - amt) as u32,
        copies_listed: (e.copies_listed - amt) as u32,
        listed_price: e.listed_price,
    }
}

/// Account `a` holds an entry with at least `amt` copies owned and listed.
pub open spec fn can_debit(s: Seq<OwnershipEntry>, a: AccountId, amt: u32) -> bool {
    match find_rec(s, a) {
        Option::Some(e) => e.copies_owned >= amt && e.copies_listed >= amt,
        Option::None => false,
    }
}

pub proof fn lemma_sum_nonneg(s: Seq<OwnershipEntry>)
    ensures
        sum_owned(s) >= 0,
    decreases s.len(),
{
    if s.len() > 0 {
        lemma_sum_nonneg(s.skip(1));
    }
}

pub proof fn lemma_sum_update(s: Seq<OwnershipEntry>, i: int, e: OwnershipEntry)
    requires
        0 <= i < s.len(),
    ensures
        sum_owned(s.update(i, e)) == sum_owned(s) - s[i].copies_owned + e.copies_owned,
    decreases s.len(),
{
    let t = s.update(i, e);
    if i == 0 {
        assert(t[0] == e);
        assert(t.skip(1) =~= s.skip(1));
    } else {
        assert(t[0] == s[0]);
        assert(t.skip(1) =~= s.skip(1).update(i - 1, e));
        assert(s.skip(1)[i - 1] == s[i]);
        lemma_sum_update(s.skip(1), i - 1, e);
    }
}

pub proof fn lemma_sum_push(s: Seq<OwnershipEntry>, e: OwnershipEntry)
    ensures
        sum_owned(s.push(e)) == sum_owned(s) + e.copies_owned,
    decreases s.len(),
{
    let t = s.push(e);
    if s.len() == 0 {
        assert(t[0] == e);
        assert(t.skip(1) =~= Seq::<OwnershipEntry>::empty());
        assert(sum_owned(t.skip(1)) == 0);
    } else {
        assert(t[0] == s[0]);
        assert(t.skip(1) =~= s.skip(1).push(e));
        lemma_sum_push(s.skip(1), e);
    }
}

/// What one account owns never exceeds the total owned across all entries.
pub proof fn lemma_copies_le_sum(s: Seq<OwnershipEntry>, a: AccountId)
    ensures
        0 <= copies_of(s, a) <= sum_owned(s),
    decreases s.len(),
{
    lemma_sum_nonneg(s);
    if s.len() > 0 {
        lemma_sum_nonneg(s.skip(1));
        if s[0].holder != a {
            lemma_copies_le_sum(s.skip(1), a);
        }
    }
}

/// What two different accounts own together never exceeds the total owned.
pub proof fn lemma_pair_le_sum(s: Seq<OwnershipEntry>, a: AccountId, b: AccountId)
    requires
        a != b,
    ensures
        copies_of(s, a) + copies_of(s, b) <= sum_owned(s),
    decreases s.len(),
{
    if s.len() == 0 {
    } else if s[0].holder == a {
        lemma_copies_le_sum(s.skip(1), b);
    } else if s[0].holder == b {
        lemma_copies_le_sum(s.skip(1), a);
    } else {
        lemma_pair_le_sum(s.skip(1), a, b);
    }
}

/// The position of account `a`'s entry, scanning from the front.
pub fn find_entry(v: &Vec<OwnershipEntry>, a: AccountId) -> (r: Option<usize>)
    ensures
        match r {
            Option::Some(i) => i < v@.len() && v@[i as int].holder == a,
            Option::None => !has_key(v@, a),
        },
{
    let mut i: usize = 0;
    while i < v.len()
        invariant
            i <= v@.len(),
            forall|j: int| 0 <= j < i ==> (#[trigger] v@[j]).holder != a,
        decreases v@.len() - i,
    {
        if v[i].holder == a {
            return Some(i);
        }
        i = i + 1;
    }
    None
}

/// Credit `amt` copies of the item to `a`, creating a zero-listing entry at
/// price `fallback_price` when `a` holds none yet.
pub fn credit_copies(v: &mut Vec<OwnershipEntry>, a: AccountId, amt: u32, fallback_price: u128)
    requires
        distinct_keys(old(v)@),
        listings_ok(old(v)@),
        copies_of(old(v)@, a) + amt <= u32::MAX,
    ensures
        distinct_keys(final(v)@),
        listings_ok(final(v)@),
        final(v)@.len() == old(v)@.len() + (if find_rec(old(v)@, a) is Some {
            0int
        } else {
            1int
        }),
        sum_owned(final(v)@) == sum_owned(old(v)@) + amt,
        find_rec(final(v)@, a) == Some(credited_entry(old(v)@, a, amt, fallback_price)),
        forall|b: AccountId| b != a ==> find_rec(final(v)@, b) == find_rec(old(v)@, b),
{
    let ghost s0 = v@;
    match find_entry(v, a) {
        Some(i) => {
            proof {
                lemma_find_at(s0, a, i as int);
            }
            let old_e = v[i];
            let e = OwnershipEntry {
                holder: a,
                copies_owned: old_e.copies_owned + amt,
                copies_listed: old_e.copies_listed,
                listed_price: old_e.listed_price,
            };
            v.set(i, e);
            proof {
                assert forall|b: AccountId| true implies find_rec(v@, b) == (if b == a {
                    Some(e)
                } else {
                    find_rec(s0, b)
                }) by {
                    lemma_find_update(s0, i as int, e, b);
                }
                lemma_sum_update(s0, i as int, e);
                assert forall|j: int| 0 <= j < v@.len() implies (#[trigger] v@[j]).copies_listed
                    <= v@[j].copies_owned by {
                    if j != i {
                        assert(v@[j] == s0[j]);
                    }
                }
            }
        },
        None => {
            proof {
                if find_rec(s0, a) is Some {
                    lemma_find_some_has_key(s0, a);
                }
            }
            let e = OwnershipEntry {
                holder: a,
                copies_owned: amt,
                copies_listed: 0,
                listed_price: fallback_price,
            };
            v.push(e);
            proof {
                assert forall|b: AccountId| true implies find_rec(v@, b) == (if b == a {
                    Some(e)
                } else {
                    find_rec(s0, b)
                }) by {
                    lemma_find_push(s0, e, b);
                }
                lemma_sum_push(s0, e);
                assert forall|j: int| 0 <= j < v@.len() implies (#[trigger] v@[j]).copies_listed
                    <= v@[j].copies_owned by {
                    if j != s0.len() {
                        assert(v@[j] == s0[j]);
                    }
                }
            }
        },
    }
}

/// Take `amt` listed copies away from holder `a`, which must own and list at
/// least that many; both its owned and listed counts drop by `amt`.
pub fn debit_resale(v: &mut Vec<OwnershipEntry>, a: AccountId, amt: u32)
    requires
        distinct_keys(old(v)@),
        listings_ok(old(v)@),
        can_debit(old(v)@, a, amt),
    ensures
        distinct_keys(final(v)@),
        listings_ok(final(v)@),
        final(v)@.len() == old(v)@.len(),
        sum_owned(final(v)@) == sum_owned(old(v)@) - amt,
        find_rec(final(v)@, a) == Some(debited_entry(old(v)@, a, amt)),
        forall|b: AccountId| b != a ==> find_rec(final(v)@, b) == find_rec(old(v)@, b),
{
    let ghost s0 = v@;
    proof {
        lemma_find_some_has_key(s0, a);
    }
    match find_entry(v, a) {
        Some(i) => {
            proof {
                lemma_find_at(s0, a, i as int);
            }
            let old_e = v[i];
            let e = OwnershipEntry {
                holder: a,
                copies_owned: old_e.copies_owned - amt,
                copies_listed: old_e.copies_listed - amt,
                listed_price: old_e.listed_price,
            };
            v.set(i, e);
            proof {
                assert forall|b: AccountId| true implies find_rec(v@, b) == (if b == a {
                    Some(e)
                } else {
                    find_rec(s0, b)
                }) by {
                    lemma_find_update(s0, i as int, e, b);
                }
                lemma_sum_update(s0, i as int, e);
                assert forall|j: int| 0 <= j < v@.len() implies (#[trigger] v@[j]).copies_listed
                    <= v@[j].copies_owned by {
                    if j != i {
                        assert(v@[j] == s0[j]);
                    }
                }
            }
        },
        None => {
            proof {
                assert(false);
            }
        },
    }
}

} // verus!
