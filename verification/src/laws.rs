use crate::account::AccountId;
use crate::holdings::index_copies;
use crate::market::Market;
use crate::owners::{copies_of, sum_owned};
use vstd::prelude::*;

verus! {

/// Supply conservation: for every item, the copies owned across all of its
/// holders add up to exactly what was minted, and what was minted never
/// exceeds the supply cap. Every market operation preserves this, so it holds
/// in particular right after any successful mint, and resales cannot change
/// the total.
pub proof fn lemma_supply_conservation(m: Market, item_id: u32)
    requires
        m.wf(),
        item_id < m.count,
    ensures
        sum_owned(m.items@[item_id as int].owners@) == m.items@[item_id as int].current_supply
            as int,
        m.items@[item_id as int].current_supply <= m.items@[item_id as int].max_supply,
{
}

/// Listings within holdings: no ownership entry ever lists more copies for
/// sale than it owns. Every successful listing and every trade preserves this.
pub proof fn lemma_listings_within_holdings(m: Market, item_id: u32, j: int)
    requires
        m.wf(),
        item_id < m.count,
        0 <= j < m.items@[item_id as int].owners@.len(),
    ensures
        m.items@[item_id as int].owners@[j].copies_listed
            <= m.items@[item_id as int].owners@[j].copies_owned,
{
}

/// Index consistency: for every account and every item, the quantity the
/// account's global ownership index records equals the copies the item's own
/// ownership entry gives that account (zero on both sides when either record
/// is absent).
pub proof fn lemma_index_consistency(m: Market, account: AccountId, item_id: u32)
    requires
        m.wf(),
        item_id < m.count,
    ensures
        index_copies(m.index@, account, item_id) == copies_of(
            m.items@[item_id as int].owners@,
            account,
        ),
{
}

/// No double-spend across serialized mints: when two mint requests together
/// exceed an item's remaining capacity, at most the first can go through the
/// mint path. After a first mint of `amt1`, a further `amt2` no longer fits
/// under the cap, and `buy_item` raises `current_supply` only on a mint that
/// fits, so the second request is diverted to the resale path or refused.
pub proof fn lemma_no_double_spend(m0: Market, m1: Market, item_id: u32, amt1: u32, amt2: u32)
    requires
        m0.wf(),
        m1.wf(),
        item_id < m0.count,
        item_id < m1.count,
        m0.items@[item_id as int].mint_fits(amt1),
        amt1 + amt2 > m0.items@[item_id as int].max_supply
            - m0.items@[item_id as int].current_supply,
        m1.items@[item_id as int].current_supply == m0.items@[item_id as int].current_supply
            + amt1,
        m1.items@[item_id as int].max_supply == m0.items@[item_id as int].max_supply,
    ensures
        !m1.items@[item_id as int].mint_fits(amt2),
{
}

} // verus!
