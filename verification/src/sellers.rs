use crate::account::AccountId;
use crate::keyed::{
    distinct_keys, find_rec, has_key, lemma_find_at, lemma_find_props, lemma_find_push,
    lemma_find_update, Keyed,
};
use vstd::prelude::*;

verus! {

/// One seller of record and the ids of the items it created, in creation
/// order.
pub struct SellerRecord {
    pub seller: AccountId,
    pub item_ids: Vec<u32>,
}

impl Keyed for SellerRecord {
    open spec fn key(&self) -> u64 {
        self.seller
    }
}

/// The item ids seller `a` created, empty when it created none.
pub open spec fn items_of(s: Seq<SellerRecord>, a: AccountId) -> Seq<u32> {
    match find_rec(s, a) {
        Option::Some(r) => r.item_ids@,
        Option::None => Seq::empty(),
    }
}

/// The distinct sellers, in the order they first created an item.
pub open spec fn seller_list(s: Seq<SellerRecord>) -> Seq<AccountId> {
    s.map_values(|r: SellerRecord| r.seller)
}

/// The position of seller `a`'s record.
pub fn find_seller(v: &Vec<SellerRecord>, a: AccountId) -> (r: Option<usize>)
    ensures
        match r {
            Option::Some(i) => i < v@.len() && v@[i as int].seller == a,
            Option::None => !has_key(v@, a),
        },
{
    let mut i: usize = 0;
    while i < v.len()
        invariant
            i <= v@.len(),
            forall|j: int| 0 <= j < i ==> (#[trigger] v@[j]).seller != a,
        decreases v@.len() - i,
    {
        if v[i].seller == a {
            return Some(i);
        }
        i = i + 1;
    }
    None
}

/// Append item `id` to seller `a`'s creation list, adding `a` to the distinct
/// seller set when it is new.
pub fn register(v: &mut Vec<SellerRecord>, a: AccountId, id: u32)
    requires
        distinct_keys(old(v)@),
    ensures
        distinct_keys(final(v)@),
        has_key(final(v)@, a),
        items_of(final(v)@, a) == items_of(old(v)@, a).push(id),
        forall|b: AccountId| b != a ==> find_rec(final(v)@, b) == find_rec(old(v)@, b),
        forall|b: AccountId| has_key(final(v)@, b) <==> has_key(old(v)@, b) || b == a,
        seller_list(final(v)@) == (if has_key(old(v)@, a) {
            seller_list(old(v)@)
        } else {
            seller_list(old(v)@).push(a)
        }),
{
    let ghost s0 = v@;
    match find_seller(v, a) {
        Some(i) => {
            proof {
                lemma_find_at(s0, a, i as int);
            }
            let mut rec = v.remove(i);
            rec.item_ids.push(id);
            let ghost rec_v = rec;
            v.insert(i, rec);
            proof {
                assert(v@ =~= s0.update(i as int, rec_v));
                assert forall|b: AccountId| true implies find_rec(v@, b) == (if b == a {
                    Some(rec_v)
                } else {
                    find_rec(s0, b)
                }) by {
                    lemma_find_update(s0, i as int, rec_v, b);
                }
                assert forall|b: AccountId| has_key(v@, b) <==> has_key(s0, b) || b == a by {
                    if has_key(s0, b) {
                        let p = choose|p: int| 0 <= p < s0.len() && (#[trigger] s0[p].key()) == b;
                        assert(v@[p].key() == b);
                    }
                    if b == a {
                        assert(v@[i as int].key() == a);
                    }
                    if has_key(v@, b) {
                        let p = choose|p: int| 0 <= p < v@.len() && (#[trigger] v@[p].key()) == b;
                        if p != i {
                            assert(s0[p].key() == b);
                        }
                    }
                }
                assert(has_key(v@, a)) by {
                    assert(v@[i as int].key() == a);
                }
                assert(seller_list(v@) =~= seller_list(s0));
            }
        },
        None => {
            proof {
                lemma_find_props(s0, a);
            }
            let mut item_ids: Vec<u32> = Vec::new();
            item_ids.push(id);
            let rec = SellerRecord { seller: a, item_ids };
            let ghost rec_v = rec;
            v.push(rec);
            proof {
                assert forall|b: AccountId| true implies find_rec(v@, b) == (if b == a {
                    Some(rec_v)
                } else {
                    find_rec(s0, b)
                }) by {
                    lemma_find_push(s0, rec_v, b);
                }
                assert forall|b: AccountId| has_key(v@, b) <==> has_key(s0, b) || b == a by {
                    if has_key(s0, b) {
                        let p = choose|p: int| 0 <= p < s0.len() && (#[trigger] s0[p].key()) == b;
                        assert(v@[p].key() == b);
                    }
                    if b == a {
                        assert(v@[s0.len() as int].key() == a);
                    }
                    if has_key(v@, b) {
                        let p = choose|p: int| 0 <= p < v@.len() && (#[trigger] v@[p].key()) == b;
                        if p < s0.len() {
                            assert(s0[p].key() == b);
                        } else {
                            assert(v@[p] == rec_v);
                        }
                    }
                }
                assert(has_key(v@, a)) by {
                    assert(v@[s0.len() as int].key() == a);
                }
                assert(items_of(v@, a) =~= items_of(s0, a).push(id));
                assert(seller_list(v@) =~= seller_list(s0).push(a));
            }
        },
    }
}

} // verus!
