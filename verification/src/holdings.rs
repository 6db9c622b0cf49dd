use crate::account::AccountId;
use crate::keyed::{
    distinct_keys, find_rec, has_key, lemma_find_at, lemma_find_props, lemma_find_push,
    lemma_find_update, Keyed,
};
use vstd::pervasive::VecAdditionalExecFns;
use vstd::prelude::*;

verus! {

/// One line of an account's ownership index: how many copies of one item the
/// account owns, summarized across all trade paths.
#[derive(Clone, Copy, Debug, PartialEq, Eq, Structural)]
pub struct IndexEntry {
    pub item_id: u32,
    pub copies_owned: u32,
}

impl Keyed for IndexEntry {
    open spec fn key(&self) -> u64 {
        self.item_id as u64
    }
}

/// The full ownership index of one account, one entry per item it ever
/// acquired. An entry whose quantity fell back to zero is kept, not pruned,
/// so the index never forgets an item and lookups stay uniform.
pub struct AccountHoldings {
    pub account: AccountId,
    pub entries: Vec<IndexEntry>,
}

impl Keyed for AccountHoldings {
    open spec fn key(&self) -> u64 {
        self.account
    }
}

/// The index lines of account `a`, empty when it never acquired anything.
pub open spec fn holdings_of(accs: Seq<AccountHoldings>, a: AccountId) -> Seq<IndexEntry> {
    match find_rec(accs, a) {
        Option::Some(r) => r.entries@,
        Option::None => Seq::empty(),
    }
}

/// Copies of item `id` recorded in the index lines `s`.
pub open spec fn line_copies(s: Seq<IndexEntry>, id: u32) -> int {
    match find_rec(s, id as u64) {
        Option::Some(e) => e.copies_owned as int,
        Option::None => 0,
    }
}

/// Copies of item `id` the index records for account `a`.
pub open spec fn index_copies(accs: Seq<AccountHoldings>, a: AccountId, id: u32) -> int {
    line_copies(holdings_of(accs, a), id)
}

/// One record per account, one line per item within each record.
pub open spec fn index_wf(accs: Seq<AccountHoldings>) -> bool {
    &&& distinct_keys(accs)
    &&& forall|k: int| 0 <= k < accs.len() ==> distinct_keys((#[trigger] accs[k]).entries@)
}

/// Every item id in the index is below `n`.
pub open spec fn ids_below(accs: Seq<AccountHoldings>, n: int) -> bool {
    forall|k: int, j: int|
        0 <= k < accs.len() && 0 <= j < accs[k].entries@.len() ==> (#[trigger] accs[k].entries@[j]).item_id
            < n
}

/// An account owns nothing of an item whose id lies at or above the bound on
/// every id in the index.
pub proof fn lemma_ids_below_zero(accs: Seq<AccountHoldings>, a: AccountId, id: u32, n: int)
    requires
        ids_below(accs, n),
        id >= n,
    ensures
        index_copies(accs, a, id) == 0,
{
    lemma_find_props(accs, a);
    match find_rec(accs, a) {
        Option::None => {
            assert(find_rec(Seq::<IndexEntry>::empty(), id as u64) == None::<IndexEntry>);
        },
        Option::Some(r) => {
            let k = choose|k: int| 0 <= k < accs.len() && (#[trigger] accs[k]) == r;
            lemma_find_props(r.entries@, id as u64);
            match find_rec(r.entries@, id as u64) {
                Option::None => {},
                Option::Some(e) => {
                    let j = choose|j: int| 0 <= j < r.entries@.len() && (#[trigger] r.entries@[j])
                        == e;
                    assert(accs[k].entries@[j].item_id < n);
                },
            }
        },
    }
}

/// The position of account `a`'s index record.
pub fn find_account(v: &Vec<AccountHoldings>, a: AccountId) -> (r: Option<usize>)
    ensures
        match r {
            Option::Some(i) => i < v@.len() && v@[i as int].account == a,
            Option::None => !has_key(v@, a),
        },
{
    let mut i: usize = 0;
    while i < v.len()
        invariant
            i <= v@.len(),
            forall|j: int| 0 <= j < i ==> (#[trigger] v@[j]).account != a,
        decreases v@.len() - i,
    {
        if v[i].account == a {
            return Some(i);
        }
        i = i + 1;
    }
    None
}

/// The position of item `id`'s line within one account's index.
pub fn find_line(v: &Vec<IndexEntry>, id: u32) -> (r: Option<usize>)
    ensures
        match r {
            Option::Some(i) => i < v@.len() && v@[i as int].item_id == id,
            Option::None => !has_key(v@, id as u64),
        },
{
    let mut i: usize = 0;
    while i < v.len()
        invariant
            i <= v@.len(),
            forall|j: int| 0 <= j < i ==> (#[trigger] v@[j]).item_id != id,
        decreases v@.len() - i,
    {
        if v[i].item_id == id {
            return Some(i);
        }
        i = i + 1;
    }
    None
}

/// Record `amt` more copies of item `id` for account `a`, creating the
/// account's record or the item's line when absent.
pub fn index_add(v: &mut Vec<AccountHoldings>, a: AccountId, id: u32, amt: u32)
    requires
        index_wf(old(v)@),
        index_copies(old(v)@, a, id) + amt <= u32::MAX,
    ensures
        index_wf(final(v)@),
        index_copies(final(v)@, a, id) == index_copies(old(v)@, a, id) + amt,
        forall|b: AccountId, j: u32|
            !(b == a && j == id) ==> index_copies(final(v)@, b, j) == index_copies(old(v)@, b, j),
        forall|n: int| ids_below(old(v)@, n) && id < n ==> ids_below(final(v)@, n),
{
    let ghost s0 = v@;
    match find_account(v, a) {
        Some(i) => {
            proof {
                lemma_find_at(s0, a, i as int);
            }
            let mut rec = v.remove(i);
            let ghost e0 = rec.entries@;
            match find_line(&rec.entries, id) {
                Some(j) => {
                    proof {
                        lemma_find_at(e0, id as u64, j as int);
                    }
                    let old_line = rec.entries[j];
                    let line = IndexEntry { item_id: id, copies_owned: old_line.copies_owned + amt };
                    rec.entries.set(j, line);
                    proof {
                        assert forall|q: u64| true implies find_rec(rec.entries@, q) == (if q == id
                            as u64 {
                            Some(line)
                        } else {
                            find_rec(e0, q)
                        }) by {
                            lemma_find_update(e0, j as int, line, q);
                        }
                    }
                },
                None => {
                    proof {
                        lemma_find_props(e0, id as u64);
                    }
                    let line = IndexEntry { item_id: id, copies_owned: amt };
                    rec.entries.push(line);
                    proof {
                        assert forall|q: u64| true implies find_rec(rec.entries@, q) == (if q == id
                            as u64 {
                            Some(line)
                        } else {
                            find_rec(e0, q)
                        }) by {
                            lemma_find_push(e0, line, q);
                        }
                    }
                },
            }
            let ghost rec_v = rec;
            v.insert(i, rec);
            proof {
                assert(v@ =~= s0.update(i as int, rec_v));
                assert forall|b: AccountId| true implies find_rec(v@, b) == (if b == a {
                    Some(rec_v)
                } else {
                    find_rec(s0, b)
                }) by {
                    lemma_find_update(s0, i as int, rec_v, b);
                }
                assert forall|k: int| 0 <= k < v@.len() implies distinct_keys(
                    (#[trigger] v@[k]).entries@,
                ) by {
                    if k != i {
                        assert(v@[k] == s0[k]);
                    }
                }
                assert forall|n: int| ids_below(s0, n) && id < n implies ids_below(v@, n) by {
                    assert forall|k: int, j: int|
                        0 <= k < v@.len() && 0 <= j < v@[k].entries@.len() implies (
                    #[trigger] v@[k].entries@[j]).item_id < n by {
                        if k != i {
                            assert(v@[k] == s0[k]);
                        } else {
                            if j < e0.len() && e0[j].item_id != id {
                                assert(v@[k].entries@[j] == s0[k].entries@[j]);
                            }
                        }
                    }
                }
            }
        },
        None => {
            proof {
                lemma_find_props(s0, a);
            }
            let mut entries: Vec<IndexEntry> = Vec::new();
            entries.push(IndexEntry { item_id: id, copies_owned: amt });
            let rec = AccountHoldings { account: a, entries };
            let ghost rec_v = rec;
            v.push(rec);
            proof {
                assert forall|b: AccountId| true implies find_rec(v@, b) == (if b == a {
                    Some(rec_v)
                } else {
                    find_rec(s0, b)
                }) by {
                    lemma_find_push(s0, rec_v, b);
                }
                assert(rec_v.entries@ =~= Seq::<IndexEntry>::empty().push(
                    IndexEntry { item_id: id, copies_owned: amt },
                ));
                assert forall|q: u64| true implies find_rec(rec_v.entries@, q) == (if q == id
                    as u64 {
                    Some(IndexEntry { item_id: id, copies_owned: amt })
                } else {
                    None::<IndexEntry>
                }) by {
                    lemma_find_push(
                        Seq::<IndexEntry>::empty(),
                        IndexEntry { item_id: id, copies_owned: amt },
                        q,
                    );
                }
                assert forall|k: int| 0 <= k < v@.len() implies distinct_keys(
                    (#[trigger] v@[k]).entries@,
                ) by {
                    if k != s0.len() {
                        assert(v@[k] == s0[k]);
                    }
                }
                assert forall|n: int| ids_below(s0, n) && id < n implies ids_below(v@, n) by {
                    assert forall|k: int, j: int|
                        0 <= k < v@.len() && 0 <= j < v@[k].entries@.len() implies (
                    #[trigger] v@[k].entries@[j]).item_id < n by {
                        if k != s0.len() {
                            assert(v@[k] == s0[k]);
                        }
                    }
                }
            }
        },
    }
}

/// Strike `amt` copies of item `id` from account `a`'s index, which must
/// record at least that many; a line struck down to zero is kept.
pub fn index_sub(v: &mut Vec<AccountHoldings>, a: AccountId, id: u32, amt: u32)
    requires
        index_wf(old(v)@),
        index_copies(old(v)@, a, id) >= amt,
    ensures
        index_wf(final(v)@),
        index_copies(final(v)@, a, id) == index_copies(old(v)@, a, id) - amt,
        forall|b: AccountId, j: u32|
            !(b == a && j == id) ==> index_copies(final(v)@, b, j) == index_copies(old(v)@, b, j),
        forall|n: int| ids_below(old(v)@, n) ==> ids_below(final(v)@, n),
{
    let ghost s0 = v@;
    match find_account(v, a) {
        Some(i) => {
            proof {
                lemma_find_at(s0, a, i as int);
            }
            let mut rec = v.remove(i);
            let ghost e0 = rec.entries@;
            match find_line(&rec.entries, id) {
                Some(j) => {
                    proof {
                        lemma_find_at(e0, id as u64, j as int);
                    }
                    let old_line = rec.entries[j];
                    let line = IndexEntry { item_id: id, copies_owned: old_line.copies_owned - amt };
                    rec.entries.set(j, line);
                    proof {
                        assert forall|q: u64| true implies find_rec(rec.entries@, q) == (if q == id
                            as u64 {
                            Some(line)
                        } else {
                            find_rec(e0, q)
                        }) by {
                            lemma_find_update(e0, j as int, line, q);
                        }
                    }
                },
                None => {
                    proof {
                        lemma_find_props(e0, id as u64);
                        assert(amt == 0);
                    }
                },
            }
            let ghost rec_v = rec;
            v.insert(i, rec);
            proof {
                assert(v@ =~= s0.update(i as int, rec_v));
                assert forall|b: AccountId| true implies find_rec(v@, b) == (if b == a {
                    Some(rec_v)
                } else {
                    find_rec(s0, b)
                }) by {
                    lemma_find_update(s0, i as int, rec_v, b);
                }
                assert forall|k: int| 0 <= k < v@.len() implies distinct_keys(
                    (#[trigger] v@[k]).entries@,
                ) by {
                    if k != i {
                        assert(v@[k] == s0[k]);
                    }
                }
                assert forall|n: int| ids_below(s0, n) implies ids_below(v@, n) by {
                    assert forall|k: int, j: int|
                        0 <= k < v@.len() && 0 <= j < v@[k].entries@.len() implies (
                    #[trigger] v@[k].entries@[j]).item_id < n by {
                        if k != i {
                            assert(v@[k] == s0[k]);
                        } else {
                            if j < e0.len() && e0[j].item_id != id {
                                assert(v@[k].entries@[j] == s0[k].entries@[j]);
                            } else if j < e0.len() {
                                assert(s0[k].entries@[j].item_id < n);
                            }
                        }
                    }
                }
            }
        },
        None => {
            proof {
                lemma_find_props(s0, a);
                assert(amt == 0);
            }
        },
    }
}

} // verus!
