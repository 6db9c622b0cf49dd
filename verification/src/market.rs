use crate::account::AccountId;
use crate::errors::{MarketError, Settlement};
use crate::holdings::{
    ids_below, index_add, index_copies, index_sub, index_wf, holdings_of, lemma_ids_below_zero,
    AccountHoldings, IndexEntry,
};
use crate::keyed::{distinct_keys, find_rec, has_key, lemma_find_at, lemma_find_props, Keyed};
use crate::owners::{
    can_debit, copies_of, credited_entry, credit_copies, debit_resale, debited_entry, entry_or,
    find_entry, lemma_copies_le_sum, lemma_pair_le_sum, listings_ok, sum_owned, OwnershipEntry,
};
use crate::sellers::{find_seller, items_of, register, seller_list, SellerRecord};
use crate::util::copy_vec;
use vstd::pervasive::VecAdditionalExecFns;
use vstd::prelude::*;

verus! {

/// One tradable item: descriptive strings, the per-copy primary price, the
/// supply cap, how many copies were minted so far, the seller of record, and
/// the per-holder ownership entries.
pub struct Item {
    pub name: String,
    pub game: String,
    pub uri: String,
    pub price: u128,
    pub max_supply: u32,
    pub current_supply: u32,
    pub seller: AccountId,
    pub owners: Vec<OwnershipEntry>,
}

impl Item {
    /// Internal consistency of one item record: one entry per holder, listings
    /// within holdings, the owned copies adding up to exactly what was minted,
    /// and the minted copies within the cap.
    pub open spec fn wf(self) -> bool {
        &&& distinct_keys(self.owners@)
        &&& listings_ok(self.owners@)
        &&& sum_owned(self.owners@) == self.current_supply as int
        &&& self.current_supply <= self.max_supply
    }

    /// Copies can still be minted, or somebody holds copies that could be
    /// listed.
    pub open spec fn is_available(self) -> bool {
        self.current_supply < self.max_supply || self.owners@.len() > 0
    }

    /// Minting `amt` more copies stays within the supply cap.
    pub open spec fn mint_fits(self, amt: u32) -> bool {
        self.current_supply + amt <= self.max_supply
    }

    /// Same record content; the backing vectors may be different allocations.
    pub open spec fn same_record(self, other: Item) -> bool {
        &&& self.name == other.name
        &&& self.game == other.game
        &&& self.uri == other.uri
        &&& self.price == other.price
        &&& self.max_supply == other.max_supply
        &&& self.current_supply == other.current_supply
        &&& self.seller == other.seller
        &&& self.owners@ == other.owners@
    }

    /// The fields a trade never touches.
    pub open spec fn same_static(self, other: Item) -> bool {
        &&& self.name == other.name
        &&& self.game == other.game
        &&& self.uri == other.uri
        &&& self.price == other.price
        &&& self.max_supply == other.max_supply
        &&& self.seller == other.seller
    }
}

/// A fresh copy of one item record.
fn copy_item(it: &Item) -> (r: Item)
    ensures
        r.same_record(*it),
{
    Item {
        name: it.name.clone(),
        game: it.game.clone(),
        uri: it.uri.clone(),
        price: it.price,
        max_supply: it.max_supply,
        current_supply: it.current_supply,
        seller: it.seller,
        owners: copy_vec(&it.owners),
    }
}

/// The market state: the item catalog in id order (an item's id is its
/// position), the seller registry, and the per-account ownership index.
/// `count` is the next id to assign.
pub struct Market {
    pub count: u32,
    pub items: Vec<Item>,
    pub sellers: Vec<SellerRecord>,
    pub index: Vec<AccountHoldings>,
}

impl Market {
    /// The cross-ledger invariant: ids are dense, every item record is
    /// internally consistent, the seller registry names exactly valid items of
    /// the right seller, every item's seller is registered, and the ownership
    /// index agrees with the per-item entries on every (account, item) pair.
    pub open spec fn wf(self) -> bool {
        &&& self.count as int == self.items@.len()
        &&& forall|i: int| 0 <= i < self.items@.len() ==> (#[trigger] self.items@[i]).wf()
        &&& distinct_keys(self.sellers@)
        &&& forall|b: AccountId, j: int|
            0 <= j < items_of(self.sellers@, b).len() ==> (#[trigger] items_of(self.sellers@, b)[j])
                < self.count && self.items@[items_of(self.sellers@, b)[j] as int].seller == b
        &&& forall|i: int|
            0 <= i < self.items@.len() ==> has_key(
                self.sellers@,
                (#[trigger] self.items@[i]).seller,
            )
        &&& index_wf(self.index@)
        &&& ids_below(self.index@, self.count as int)
        &&& forall|a: AccountId, id: u32|
            id < self.count ==> #[trigger] index_copies(self.index@, a, id) == copies_of(
                self.items@[id as int].owners@,
                a,
            )
    }

    /// An empty market: no items, no sellers, nothing owned.
    pub fn default() -> (m: Market)
        ensures
            m.wf(),
            m.count == 0,
            m.items@.len() == 0,
            m.sellers@.len() == 0,
            m.index@.len() == 0,
    {
        Market { count: 0, items: Vec::new(), sellers: Vec::new(), index: Vec::new() }
    }

    /// How many items were created; also the next id to be assigned.
    pub fn get_item_count(&self) -> (r: u32)
        ensures
            r == self.count,
    {
        self.count
    }

    /// The item with id `item_id`, as a fresh copy of its record.
    pub fn get_item(&self, item_id: u32) -> (r: Result<Item, MarketError>)
        ensures
            (r is Ok) <==> item_id < self.items@.len(),
            r matches Ok(it) ==> it.same_record(self.items@[item_id as int]),
            r is Err ==> r == Err::<Item, MarketError>(MarketError::ItemNotFound),
    {
        if (item_id as usize) < self.items.len() {
            Ok(copy_item(&self.items[item_id as usize]))
        } else {
            Err(MarketError::ItemNotFound)
        }
    }

    /// The requested items, in the requested order; fails when any id is
    /// unknown.
    pub fn get_specific_items(&self, item_ids: Vec<u32>) -> (r: Result<Vec<Item>, MarketError>)
        ensures
            (r is Ok) <==> (forall|k: int|
                0 <= k < item_ids@.len() ==> (#[trigger] item_ids@[k]) < self.items@.len()),
            r matches Ok(v) ==> v@.len() == item_ids@.len() && (forall|k: int|
                0 <= k < item_ids@.len() ==> (#[trigger] v@[k]).same_record(
                    self.items@[item_ids@[k] as int],
                )),
            r is Err ==> r == Err::<Vec<Item>, MarketError>(MarketError::ItemNotFound),
    {
        let mut v: Vec<Item> = Vec::new();
        let mut k: usize = 0;
        while k < item_ids.len()
            invariant
                k <= item_ids@.len(),
                v@.len() == k,
                forall|p: int| 0 <= p < k ==> (#[trigger] item_ids@[p]) < self.items@.len(),
                forall|p: int|
                    0 <= p < k ==> (#[trigger] v@[p]).same_record(
                        self.items@[item_ids@[p] as int],
                    ),
            decreases item_ids@.len() - k,
        {
            let id = item_ids[k];
            if (id as usize) >= self.items.len() {
                return Err(MarketError::ItemNotFound);
            }
            v.push(copy_item(&self.items[id as usize]));
            k = k + 1;
        }
        Ok(v)
    }

    /// Every item, in id order, as fresh copies of the records.
    pub fn get_all_items(&self) -> (r: Vec<Item>)
        ensures
            r@.len() == self.items@.len(),
            forall|i: int|
                0 <= i < self.items@.len() ==> (#[trigger] r@[i]).same_record(self.items@[i]),
    {
        let mut v: Vec<Item> = Vec::new();
        let mut i: usize = 0;
        while i < self.items.len()
            invariant
                i <= self.items@.len(),
                v@.len() == i,
                forall|p: int| 0 <= p < i ==> (#[trigger] v@[p]).same_record(self.items@[p]),
            decreases self.items@.len() - i,
        {
            v.push(copy_item(&self.items[i]));
            i = i + 1;
        }
        v
    }

    /// Every seller of record, in the order each first created an item.
    pub fn get_all_suppliers(&self) -> (r: Vec<AccountId>)
        ensures
            r@ == seller_list(self.sellers@),
    {
        let mut v: Vec<AccountId> = Vec::new();
        let mut i: usize = 0;
        while i < self.sellers.len()
            invariant
                i <= self.sellers@.len(),
                v@ == seller_list(self.sellers@.take(i as int)),
            decreases self.sellers@.len() - i,
        {
            v.push(self.sellers[i].seller);
            proof {
                assert(seller_list(self.sellers@.take(i as int)).push(self.sellers@[i as int].seller)
                    =~= seller_list(self.sellers@.take(i as int + 1)));
            }
            i = i + 1;
        }
        proof {
            assert(self.sellers@.take(self.sellers@.len() as int) =~= self.sellers@);
        }
        v
    }

    /// The ids of the items `supplier` created, in creation order; empty when
    /// it created none.
    pub fn get_supplier_items(&self, supplier: AccountId) -> (r: Vec<u32>)
        requires
            self.wf(),
        ensures
            r@ == items_of(self.sellers@, supplier),
    {
        match find_seller(&self.sellers, supplier) {
            Some(i) => {
                proof {
                    lemma_find_at(self.sellers@, supplier, i as int);
                }
                copy_vec(&self.sellers[i].item_ids)
            },
            None => {
                proof {
                    lemma_find_props(self.sellers@, supplier);
                    assert(items_of(self.sellers@, supplier) =~= Seq::<u32>::empty());
                }
                Vec::new()
            },
        }
    }

    /// The ownership index of `owner`: per item it ever acquired, how many
    /// copies it owns now; empty when it never acquired anything.
    pub fn get_owned_items(&self, owner: AccountId) -> (r: Vec<IndexEntry>)
        requires
            self.wf(),
        ensures
            r@ == holdings_of(self.index@, owner),
    {
        match crate::holdings::find_account(&self.index, owner) {
            Some(i) => {
                proof {
                    lemma_find_at(self.index@, owner, i as int);
                }
                copy_vec(&self.index[i].entries)
            },
            None => {
                proof {
                    lemma_find_props(self.index@, owner);
                    assert(holdings_of(self.index@, owner) =~= Seq::<IndexEntry>::empty());
                }
                Vec::new()
            },
        }
    }

    /// Create a new item with the next sequential id for `seller`; it starts
    /// with nothing minted and no owners, and is recorded under the seller.
    pub fn new_item(
        &mut self,
        name: String,
        game: String,
        uri: String,
        price: u128,
        max_supply: u32,
        seller: AccountId,
    ) -> (id: u32)
        requires
            old(self).wf(),
            old(self).count < u32::MAX,
        ensures
            final(self).wf(),
            id == old(self).count,
            final(self).count == old(self).count + 1,
            final(self).items@.len() == old(self).items@.len() + 1,
            forall|i: int|
                0 <= i < old(self).items@.len() ==> final(self).items@[i] == old(self).items@[i],
            final(self).items@[id as int].name == name,
            final(self).items@[id as int].game == game,
            final(self).items@[id as int].uri == uri,
            final(self).items@[id as int].price == price,
            final(self).items@[id as int].max_supply == max_supply,
            final(self).items@[id as int].current_supply == 0,
            final(self).items@[id as int].seller == seller,
            final(self).items@[id as int].owners@ == Seq::<OwnershipEntry>::empty(),
            items_of(final(self).sellers@, seller) == items_of(old(self).sellers@, seller).push(id),
            forall|b: AccountId|
                b != seller ==> items_of(final(self).sellers@, b) == items_of(
                    old(self).sellers@,
                    b,
                ),
            seller_list(final(self).sellers@) == (if has_key(old(self).sellers@, seller) {
                seller_list(old(self).sellers@)
            } else {
                seller_list(old(self).sellers@).push(seller)
            }),
            forall|b: AccountId|
                #[trigger] has_key(final(self).sellers@, b) <==> has_key(old(self).sellers@, b)
                    || b == seller,
            final(self).index@ == old(self).index@,
    {
        let ghost m0 = *old(self);
        let id = self.count;
        let itm = Item {
            name,
            game,
            uri,
            price,
            max_supply,
            current_supply: 0,
            seller,
            owners: Vec::new(),
        };
        self.items.push(itm);
        register(&mut self.sellers, seller, id);
        self.count = id + 1;
        proof {
            assert(self.items@[id as int].owners@ =~= Seq::<OwnershipEntry>::empty());
            assert(sum_owned(Seq::<OwnershipEntry>::empty()) == 0);
            assert forall|i: int| 0 <= i < self.items@.len() implies (
            #[trigger] self.items@[i]).wf() by {
                if i < m0.items@.len() {
                    assert(self.items@[i] == m0.items@[i]);
                }
            }
            assert forall|b: AccountId, j: int|
                0 <= j < items_of(self.sellers@, b).len() implies (#[trigger] items_of(
                self.sellers@,
                b,
            )[j]) < self.count && self.items@[items_of(self.sellers@, b)[j] as int].seller
                == b by {
                if b == seller {
                    if j < items_of(m0.sellers@, b).len() {
                        assert(items_of(self.sellers@, b)[j] == items_of(m0.sellers@, b)[j]);
                    } else {
                        assert(items_of(self.sellers@, b)[j] == id);
                    }
                } else {
                    assert(items_of(self.sellers@, b) == items_of(m0.sellers@, b));
                }
            }
            assert forall|i: int| 0 <= i < self.items@.len() implies has_key(
                self.sellers@,
                (#[trigger] self.items@[i]).seller,
            ) by {
                if i < m0.items@.len() {
                    assert(self.items@[i] == m0.items@[i]);
                    assert(has_key(m0.sellers@, m0.items@[i].seller));
                }
            }
            assert forall|a: AccountId, id2: u32| id2 < self.count implies #[trigger] index_copies(
                self.index@,
                a,
                id2,
            ) == copies_of(self.items@[id2 as int].owners@, a) by {
                if id2 < m0.count {
                    assert(index_copies(m0.index@, a, id2) == copies_of(
                        m0.items@[id2 as int].owners@,
                        a,
                    ));
                    assert(self.items@[id2 as int] == m0.items@[id2 as int]);
                } else {
                    lemma_ids_below_zero(self.index@, a, id2, m0.count as int);
                    assert(find_rec(self.items@[id2 as int].owners@, a) == None::<OwnershipEntry>);
                }
            }
        }
        id
    }

    /// Overwrite the caller's listing for an item: how many of its owned
    /// copies are for sale and at what per-copy price. The caller must hold an
    /// ownership entry and may not list more than it owns.
    pub fn set_item_for_sale(
        &mut self,
        item_id: u32,
        copies_to_sell: u32,
        price_per_copy: u128,
        caller: AccountId,
    ) -> (r: Result<(), MarketError>)
        requires
            old(self).wf(),
        ensures
            final(self).wf(),
            r is Err ==> *final(self) == *old(self),
            (r == Err::<(), MarketError>(MarketError::ItemNotFound)) <==> item_id >= old(self).count,
            (r == Err::<(), MarketError>(MarketError::NotOwner)) <==> item_id < old(self).count
                && find_rec(old(self).items@[item_id as int].owners@, caller)
                is None,
            (r == Err::<(), MarketError>(MarketError::InsufficientOwnedCopies)) <==> item_id < old(self).count && (find_rec(old(self).items@[item_id as int].owners@, caller) matches Some(e)
                && e.copies_owned < copies_to_sell),
            (r is Ok) <==> item_id < old(self).count && (find_rec(
                old(self).items@[item_id as int].owners@,
                caller,
            ) matches Some(e)
                && copies_to_sell <= e.copies_owned),
            r is Ok ==> final(self).count == old(self).count && final(self).sellers@ == old(self).sellers@ && final(self).index@ == old(self).index@ && final(self).items@.len() == old(self).items@.len() && (forall|i: int|
                0 <= i < old(self).items@.len() && i != item_id as int ==> final(self).items@[i]
                    == old(self).items@[i]) && final(self).items@[item_id as int].same_static(
                old(self).items@[item_id as int],
            ) && final(self).items@[item_id as int].current_supply == old(self).items@[item_id as int].current_supply && final(self).items@[item_id as int].owners@.len() == old(self).items@[item_id as int].owners@.len(),
            r is Ok ==> find_rec(final(self).items@[item_id as int].owners@, caller) == Some(
                OwnershipEntry {
                    holder: caller,
                    copies_owned: entry_or(
                        old(self).items@[item_id as int].owners@,
                        caller,
                        0,
                    ).copies_owned,
                    copies_listed: copies_to_sell,
                    listed_price: price_per_copy,
                },
            ) && (forall|b: AccountId|
                b != caller ==> find_rec(final(self).items@[item_id as int].owners@, b) == find_rec(
                    old(self).items@[item_id as int].owners@,
                    b,
                )),
    {
        let ghost m0 = *old(self);
        if item_id >= self.count {
            return Err(MarketError::ItemNotFound);
        }
        let idx = item_id as usize;
        let found = find_entry(&self.items[idx].owners, caller);
        match found {
            None => {
                proof {
                    lemma_find_props(m0.items@[item_id as int].owners@, caller);
                }
                Err(MarketError::NotOwner)
            },
            Some(i) => {
                proof {
                    lemma_find_at(m0.items@[item_id as int].owners@, caller, i as int);
                }
                let old_e = self.items[idx].owners[i];
                if copies_to_sell > old_e.copies_owned {
                    return Err(MarketError::InsufficientOwnedCopies);
                }
                let e = OwnershipEntry {
                    holder: caller,
                    copies_owned: old_e.copies_owned,
                    copies_listed: copies_to_sell,
                    listed_price: price_per_copy,
                };
                let mut it = self.items.remove(idx);
                let ghost o = it.owners@;
                it.owners.set(i, e);
                proof {
                    assert forall|b: AccountId| true implies find_rec(it.owners@, b) == (if b
                        == caller {
                        Some(e)
                    } else {
                        find_rec(o, b)
                    }) by {
                        crate::keyed::lemma_find_update(o, i as int, e, b);
                    }
                    crate::owners::lemma_sum_update(o, i as int, e);
                    assert forall|j: int| 0 <= j < it.owners@.len() implies (
                    #[trigger] it.owners@[j]).copies_listed <= it.owners@[j].copies_owned by {
                        if j != i {
                            assert(it.owners@[j] == o[j]);
                        }
                    }
                }
                let ghost it_v = it;
                self.items.insert(idx, it);
                proof {
                    assert(self.items@ =~= m0.items@.update(item_id as int, it_v));
                    self.lemma_wf_after_item_update(m0, item_id);
                }
                Ok(())
            },
        }
    }

    /// The named holder is a seller of record and the item exists.
    pub open spec fn buy_precheck(self, buy_from: AccountId, item_id: u32) -> bool {
        has_key(self.sellers@, buy_from) && item_id < self.count
    }

    /// The prechecks pass and the item is available for sale at all.
    pub open spec fn buy_available(self, buy_from: AccountId, item_id: u32) -> bool {
        self.buy_precheck(buy_from, item_id) && self.items@[item_id as int].is_available()
    }

    /// The purchase takes the mint path: the requested copies still fit under
    /// the supply cap.
    pub open spec fn buy_minting(self, buy_from: AccountId, item_id: u32, amt: u32) -> bool {
        self.buy_available(buy_from, item_id) && self.items@[item_id as int].mint_fits(amt)
    }

    /// The purchase takes the resale path: the requested copies no longer fit
    /// under the supply cap.
    pub open spec fn buy_resale(self, buy_from: AccountId, item_id: u32, amt: u32) -> bool {
        self.buy_available(buy_from, item_id) && !self.items@[item_id as int].mint_fits(amt)
    }

    /// All mint-path authorization checks pass: only the price remains to be
    /// settled.
    pub open spec fn mint_checks_ok(self, buy_from: AccountId, item_id: u32, amt: u32) -> bool {
        self.buy_minting(buy_from, item_id, amt) && buy_from == self.items@[item_id as int].seller
    }

    /// All resale-path ownership checks pass: `buy_from` owns and lists at
    /// least the requested copies.
    pub open spec fn resale_checks_ok(self, buy_from: AccountId, item_id: u32, amt: u32) -> bool {
        self.buy_resale(buy_from, item_id, amt) && can_debit(
            self.items@[item_id as int].owners@,
            buy_from,
            amt,
        )
    }

    /// The purchase passed every check before payment.
    pub open spec fn trade_checks_ok(self, buy_from: AccountId, item_id: u32, amt: u32) -> bool {
        self.mint_checks_ok(buy_from, item_id, amt) || self.resale_checks_ok(
            buy_from,
            item_id,
            amt,
        )
    }

    /// The per-copy price the purchase settles at: the primary price on the
    /// mint path, the holder's listed price on the resale path.
    pub open spec fn trade_unit_price(self, buy_from: AccountId, item_id: u32, amt: u32) -> u128 {
        if self.items@[item_id as int].mint_fits(amt) {
            self.items@[item_id as int].price
        } else {
            entry_or(self.items@[item_id as int].owners@, buy_from, 0).listed_price
        }
    }

    /// The exact total price of the purchase.
    pub open spec fn trade_total(self, buy_from: AccountId, item_id: u32, amt: u32) -> int {
        amt * self.trade_unit_price(buy_from, item_id, amt)
    }

    /// Purchase `amt_to_buy` copies of item `item_id` from `buy_from` on
    /// behalf of `caller`, with `payment` attached. Mints from the seller of
    /// record while the cap allows it, otherwise transfers copies that
    /// `buy_from` has listed. On success the returned settlement says what to
    /// pay whom; on any error the market is left exactly as it was.
    pub fn buy_item(
        &mut self,
        buy_from: AccountId,
        item_id: u32,
        amt_to_buy: u32,
        payment: u128,
        caller: AccountId,
    ) -> (r: Result<Settlement, MarketError>)
        requires
            old(self).wf(),
        ensures
            final(self).wf(),
            r is Err ==> *final(self) == *old(self),
            (r == Err::<Settlement, MarketError>(MarketError::SellerNotFound)) <==> !has_key(
                old(self).sellers@,
                buy_from,
            ),
            (r == Err::<Settlement, MarketError>(MarketError::ItemNotFound)) <==> has_key(
                old(self).sellers@,
                buy_from,
            ) && item_id >= old(self).count,
            (r == Err::<Settlement, MarketError>(MarketError::ItemUnavailable)) <==> old(self).buy_precheck(buy_from, item_id) && !old(self).items@[item_id as int].is_available(),
            (r == Err::<Settlement, MarketError>(MarketError::NotSeller)) <==> old(self).buy_minting(buy_from, item_id, amt_to_buy) && buy_from != old(self).items@[item_id as int].seller,
            (r == Err::<Settlement, MarketError>(MarketError::SellerDoesNotOwnItem)) <==> old(self).buy_resale(buy_from, item_id, amt_to_buy) && find_rec(
                old(self).items@[item_id as int].owners@,
                buy_from,
            ) is None,
            (r == Err::<Settlement, MarketError>(MarketError::InsufficientOwnedCopies)) <==> old(self).buy_resale(buy_from, item_id, amt_to_buy) && (find_rec(
                old(self).items@[item_id as int].owners@,
                buy_from,
            ) matches Some(e)
                && e.copies_owned < amt_to_buy),
            (r == Err::<Settlement, MarketError>(MarketError::InsufficientListedCopies)) <==> old(self).buy_resale(buy_from, item_id, amt_to_buy) && (find_rec(
                old(self).items@[item_id as int].owners@,
                buy_from,
            ) matches Some(e)
                && e.copies_owned >= amt_to_buy && e.copies_listed < amt_to_buy),
            (r == Err::<Settlement, MarketError>(MarketError::ArithmeticOverflow)) <==> old(self).trade_checks_ok(buy_from, item_id, amt_to_buy) && old(self).trade_total(
                buy_from,
                item_id,
                amt_to_buy,
            ) > u128::MAX,
            (r == Err::<Settlement, MarketError>(MarketError::InsufficientFunds)) <==> old(self).trade_checks_ok(buy_from, item_id, amt_to_buy) && old(self).trade_total(
                buy_from,
                item_id,
                amt_to_buy,
            ) <= u128::MAX && payment < old(self).trade_total(buy_from, item_id, amt_to_buy),
            (r is Ok) <==> old(self).trade_checks_ok(buy_from, item_id, amt_to_buy) && old(self).trade_total(buy_from, item_id, amt_to_buy) <= u128::MAX && payment >= old(self).trade_total(buy_from, item_id, amt_to_buy),
            r matches Ok(s) ==> s.pay_to == buy_from && s.paid == old(self).trade_total(
                buy_from,
                item_id,
                amt_to_buy,
            ) && s.refund_to == caller && s.refunded == payment - old(self).trade_total(
                buy_from,
                item_id,
                amt_to_buy,
            ),
            r is Ok ==> final(self).count == old(self).count && final(self).sellers@ == old(self).sellers@ && final(self).items@.len() == old(self).items@.len() && (forall|i: int|
                0 <= i < old(self).items@.len() && i != item_id as int ==> final(self).items@[i]
                    == old(self).items@[i]) && final(self).items@[item_id as int].same_static(
                old(self).items@[item_id as int],
            ) && final(self).items@[item_id as int].owners@.len() == old(self).items@[item_id as int].owners@.len() + (if find_rec(
                old(self).items@[item_id as int].owners@,
                caller,
            ) is Some {
                0int
            } else {
                1int
            }),
            r is Ok && old(self).items@[item_id as int].mint_fits(amt_to_buy) ==> final(self).items@[item_id as int].current_supply == old(self).items@[item_id as int].current_supply + amt_to_buy && find_rec(
                final(self).items@[item_id as int].owners@,
                caller,
            ) == Some(
                credited_entry(
                    old(self).items@[item_id as int].owners@,
                    caller,
                    amt_to_buy,
                    old(self).items@[item_id as int].price,
                ),
            ) && (forall|b: AccountId|
                b != caller ==> find_rec(final(self).items@[item_id as int].owners@, b) == find_rec(
                    old(self).items@[item_id as int].owners@,
                    b,
                )),
            r is Ok && !old(self).items@[item_id as int].mint_fits(amt_to_buy) ==> final(self).items@[item_id as int].current_supply == old(self).items@[item_id as int].current_supply && (caller == buy_from ==> find_rec(
                final(self).items@[item_id as int].owners@,
                caller,
            ) == Some(
                OwnershipEntry {
                    holder: caller,
                    copies_owned: entry_or(
                        old(self).items@[item_id as int].owners@,
                        buy_from,
                        0,
                    ).copies_owned,
                    copies_listed: (entry_or(
                        old(self).items@[item_id as int].owners@,
                        buy_from,
                        0,
                    ).copies_listed - amt_to_buy) as u32,
                    listed_price: entry_or(
                        old(self).items@[item_id as int].owners@,
                        buy_from,
                        0,
                    ).listed_price,
                },
            )) && (caller != buy_from ==> find_rec(
                final(self).items@[item_id as int].owners@,
                buy_from,
            ) == Some(debited_entry(old(self).items@[item_id as int].owners@, buy_from, amt_to_buy))
                && find_rec(final(self).items@[item_id as int].owners@, caller) == Some(
                credited_entry(
                    old(self).items@[item_id as int].owners@,
                    caller,
                    amt_to_buy,
                    old(self).items@[item_id as int].price,
                ),
            )) && (forall|b: AccountId|
                b != caller && b != buy_from ==> find_rec(
                    final(self).items@[item_id as int].owners@,
                    b,
                ) == find_rec(old(self).items@[item_id as int].owners@, b)),
            r is Ok ==> forall|b: AccountId, j: u32|
                #[trigger] index_copies(final(self).index@, b, j) == index_copies(
                    old(self).index@,
                    b,
                    j,
                ) + (if b == caller && j == item_id {
                    amt_to_buy as int
                } else {
                    0
                }) - (if !old(self).items@[item_id as int].mint_fits(amt_to_buy) && b == buy_from
                    && j == item_id {
                    amt_to_buy as int
                } else {
                    0
                }),
    {
        let ghost m0 = *old(self);
        match find_seller(&self.sellers, buy_from) {
            None => {
                return Err(MarketError::SellerNotFound);
            },
            Some(si) => {
                proof {
                    assert(has_key(m0.sellers@, buy_from)) by {
                        assert(m0.sellers@[si as int].key() == buy_from);
                    }
                }
            },
        }
        if item_id >= self.count {
            return Err(MarketError::ItemNotFound);
        }
        let idx = item_id as usize;
        let ghost o = m0.items@[item_id as int].owners@;
        let available = {
            let it_ref = &self.items[idx];
            it_ref.current_supply < it_ref.max_supply || it_ref.owners.len() > 0
        };
        if !available {
            return Err(MarketError::ItemUnavailable);
        }
        let minting = {
            let it_ref = &self.items[idx];
            (it_ref.current_supply as u64) + (amt_to_buy as u64) <= (it_ref.max_supply as u64)
        };
        if minting {
            if buy_from != self.items[idx].seller {
                return Err(MarketError::NotSeller);
            }
            let price = self.items[idx].price;
            let required = match (amt_to_buy as u128).checked_mul(price) {
                Some(x) => x,
                None => {
                    return Err(MarketError::ArithmeticOverflow);
                },
            };
            if payment < required {
                return Err(MarketError::InsufficientFunds);
            }
            let refund = payment - required;
            let mut it = self.items.remove(idx);
            proof {
                lemma_copies_le_sum(o, caller);
            }
            it.current_supply = it.current_supply + amt_to_buy;
            let fallback = it.price;
            credit_copies(&mut it.owners, caller, amt_to_buy, fallback);
            let ghost it_v = it;
            self.items.insert(idx, it);
            proof {
                assert(self.items@ =~= m0.items@.update(item_id as int, it_v));
            }
            index_add(&mut self.index, caller, item_id, amt_to_buy);
            proof {
                assert forall|a: AccountId| true implies index_copies(self.index@, a, item_id)
                    == copies_of(self.items@[item_id as int].owners@, a) by {
                    if a != caller {
                        assert(index_copies(self.index@, a, item_id) == index_copies(
                            m0.index@,
                            a,
                            item_id,
                        ));
                    }
                }
                self.lemma_wf_after_trade(m0, item_id);
            }
            Ok(Settlement { pay_to: buy_from, paid: required, refund_to: caller, refunded: refund })
        } else {
            let found = find_entry(&self.items[idx].owners, buy_from);
            match found {
                None => {
                    proof {
                        lemma_find_props(o, buy_from);
                    }
                    Err(MarketError::SellerDoesNotOwnItem)
                },
                Some(i) => {
                    proof {
                        lemma_find_at(o, buy_from, i as int);
                    }
                    let e = self.items[idx].owners[i];
                    if e.copies_owned < amt_to_buy {
                        return Err(MarketError::InsufficientOwnedCopies);
                    }
                    if e.copies_listed < amt_to_buy {
                        return Err(MarketError::InsufficientListedCopies);
                    }
                    let required = match (amt_to_buy as u128).checked_mul(e.listed_price) {
                        Some(x) => x,
                        None => {
                            return Err(MarketError::ArithmeticOverflow);
                        },
                    };
                    if payment < required {
                        return Err(MarketError::InsufficientFunds);
                    }
                    let refund = payment - required;
                    let mut it = self.items.remove(idx);
                    proof {
                        lemma_copies_le_sum(o, caller);
                        if caller != buy_from {
                            lemma_pair_le_sum(o, caller, buy_from);
                        }
                    }
                    debit_resale(&mut it.owners, buy_from, amt_to_buy);
                    let fallback = it.price;
                    credit_copies(&mut it.owners, caller, amt_to_buy, fallback);
                    let ghost it_v = it;
                    self.items.insert(idx, it);
                    proof {
                        assert(self.items@ =~= m0.items@.update(item_id as int, it_v));
                    }
                    index_sub(&mut self.index, buy_from, item_id, amt_to_buy);
                    index_add(&mut self.index, caller, item_id, amt_to_buy);
                    proof {
                        assert forall|a: AccountId| true implies index_copies(
                            self.index@,
                            a,
                            item_id,
                        ) == copies_of(self.items@[item_id as int].owners@, a) by {
                            if a != caller && a != buy_from {
                                assert(index_copies(self.index@, a, item_id) == index_copies(
                                    m0.index@,
                                    a,
                                    item_id,
                                ));
                            }
                        }
                        self.lemma_wf_after_trade(m0, item_id);
                    }
                    Ok(
                        Settlement {
                            pay_to: buy_from,
                            paid: required,
                            refund_to: caller,
                            refunded: refund,
                        },
                    )
                },
            }
        }
    }

    /// After a trade touched one item's supply and owners and moved the same
    /// copies in the ownership index, the cross-ledger invariant still holds.
    proof fn lemma_wf_after_trade(self, m0: Market, item_id: u32)
        requires
            m0.wf(),
            item_id < m0.count,
            self.count == m0.count,
            self.sellers@ == m0.sellers@,
            self.items@.len() == m0.items@.len(),
            forall|i: int|
                0 <= i < m0.items@.len() && i != item_id as int ==> self.items@[i]
                    == m0.items@[i],
            self.items@[item_id as int].wf(),
            self.items@[item_id as int].seller == m0.items@[item_id as int].seller,
            index_wf(self.index@),
            forall|n: int| ids_below(m0.index@, n) && item_id < n ==> ids_below(self.index@, n),
            forall|a: AccountId, j: u32|
                j != item_id ==> #[trigger] index_copies(self.index@, a, j) == index_copies(
                    m0.index@,
                    a,
                    j,
                ),
            forall|a: AccountId|
                #[trigger] index_copies(self.index@, a, item_id) == copies_of(
                    self.items@[item_id as int].owners@,
                    a,
                ),
        ensures
            self.wf(),
    {
        assert forall|i: int| 0 <= i < self.items@.len() implies (#[trigger] self.items@[i]).wf() by {
            if i != item_id as int {
                assert(self.items@[i] == m0.items@[i]);
            }
        }
        assert forall|b: AccountId, j: int|
            0 <= j < items_of(self.sellers@, b).len() implies (#[trigger] items_of(
            self.sellers@,
            b,
        )[j]) < self.count && self.items@[items_of(self.sellers@, b)[j] as int].seller == b by {
            assert(items_of(m0.sellers@, b)[j] < m0.count);
            let el = items_of(m0.sellers@, b)[j];
            if el != item_id {
                assert(self.items@[el as int] == m0.items@[el as int]);
            }
        }
        assert forall|i: int| 0 <= i < self.items@.len() implies has_key(
            self.sellers@,
            (#[trigger] self.items@[i]).seller,
        ) by {
            if i != item_id as int {
                assert(self.items@[i] == m0.items@[i]);
            }
            assert(has_key(m0.sellers@, m0.items@[i].seller));
        }
        assert(ids_below(self.index@, self.count as int));
        assert forall|a: AccountId, id2: u32| id2 < self.count implies #[trigger] index_copies(
            self.index@,
            a,
            id2,
        ) == copies_of(self.items@[id2 as int].owners@, a) by {
            if id2 != item_id {
                assert(index_copies(self.index@, a, id2) == index_copies(m0.index@, a, id2));
                assert(index_copies(m0.index@, a, id2) == copies_of(
                    m0.items@[id2 as int].owners@,
                    a,
                ));
                assert(self.items@[id2 as int] == m0.items@[id2 as int]);
            }
        }
    }

    /// After one item's owners were reworked without touching its static
    /// fields, its seller, or the owned-copies totals seen by the index, the
    /// cross-ledger invariant still holds.
    proof fn lemma_wf_after_item_update(self, m0: Market, item_id: u32)
        requires
            m0.wf(),
            item_id < m0.count,
            self.count == m0.count,
            self.sellers@ == m0.sellers@,
            self.index@ == m0.index@,
            self.items@.len() == m0.items@.len(),
            forall|i: int|
                0 <= i < m0.items@.len() && i != item_id as int ==> self.items@[i]
                    == m0.items@[i],
            self.items@[item_id as int].wf(),
            self.items@[item_id as int].seller == m0.items@[item_id as int].seller,
            forall|a: AccountId|
                copies_of(self.items@[item_id as int].owners@, a) == copies_of(
                    m0.items@[item_id as int].owners@,
                    a,
                ),
        ensures
            self.wf(),
    {
        assert forall|i: int| 0 <= i < self.items@.len() implies (#[trigger] self.items@[i]).wf() by {
            if i != item_id as int {
                assert(self.items@[i] == m0.items@[i]);
            }
        }
        assert forall|b: AccountId, j: int|
            0 <= j < items_of(self.sellers@, b).len() implies (#[trigger] items_of(
            self.sellers@,
            b,
        )[j]) < self.count && self.items@[items_of(self.sellers@, b)[j] as int].seller == b by {
            assert(items_of(m0.sellers@, b)[j] < m0.count);
            let el = items_of(m0.sellers@, b)[j];
            if el != item_id {
                assert(self.items@[el as int] == m0.items@[el as int]);
            }
        }
        assert forall|i: int| 0 <= i < self.items@.len() implies has_key(
            self.sellers@,
            (#[trigger] self.items@[i]).seller,
        ) by {
            if i != item_id as int {
                assert(self.items@[i] == m0.items@[i]);
            }
            assert(has_key(m0.sellers@, m0.items@[i].seller));
        }
        assert forall|a: AccountId, id2: u32| id2 < self.count implies #[trigger] index_copies(
            self.index@,
            a,
            id2,
        ) == copies_of(self.items@[id2 as int].owners@, a) by {
            assert(index_copies(m0.index@, a, id2) == copies_of(m0.items@[id2 as int].owners@, a));
            if id2 != item_id {
                assert(self.items@[id2 as int] == m0.items@[id2 as int]);
            }
        }
    }
}

} // verus!
