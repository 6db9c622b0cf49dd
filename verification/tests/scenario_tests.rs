use market::{Market, MarketError, Settlement};

const S: u64 = 1;
const B: u64 = 2;
const C: u64 = 3;
const D: u64 = 4;
const E: u64 = 5;
const X: u64 = 9;

fn sword_market() -> Market {
    let mut m = Market::default();
    let id = m.new_item(
        "Sword".to_string(),
        "Arena".to_string(),
        "ipfs://sword".to_string(),
        100,
        10,
        S,
    );
    assert_eq!(id, 0);
    m
}

#[test]
fn scenario_primary_mint_exact_payment() {
    let mut m = sword_market();
    let item = m.get_item(0).unwrap();
    assert_eq!(item.current_supply, 0);
    assert_eq!(item.max_supply, 10);
    assert_eq!(item.price, 100);
    assert_eq!(item.seller, S);

    let s = m.buy_item(S, 0, 3, 300, B).unwrap();
    assert_eq!(
        s,
        Settlement { pay_to: S, paid: 300, refund_to: B, refunded: 0 }
    );
    let item = m.get_item(0).unwrap();
    assert_eq!(item.current_supply, 3);
    assert_eq!(item.owners.len(), 1);
    assert_eq!(item.owners[0].holder, B);
    assert_eq!(item.owners[0].copies_owned, 3);
    assert_eq!(item.owners[0].copies_listed, 0);

    let owned = m.get_owned_items(B);
    assert_eq!(owned.len(), 1);
    assert_eq!(owned[0].item_id, 0);
    assert_eq!(owned[0].copies_owned, 3);
}

#[test]
fn scenario_overpayment_refunded() {
    let mut m = sword_market();
    m.buy_item(S, 0, 3, 300, B).unwrap();

    let s = m.buy_item(S, 0, 1, 150, B).unwrap();
    assert_eq!(s.paid, 100);
    assert_eq!(s.pay_to, S);
    assert_eq!(s.refunded, 50);
    assert_eq!(s.refund_to, B);

    let item = m.get_item(0).unwrap();
    assert_eq!(item.current_supply, 4);
    assert_eq!(item.owners[0].copies_owned, 4);
    assert_eq!(m.get_owned_items(B)[0].copies_owned, 4);
}

/// A holder can resell only once the requested amount no longer fits under
/// the mint cap, and only as a registered seller; the setup fills the cap
/// through another buyer and registers the holder with an item of its own.
fn resale_market() -> Market {
    let mut m = sword_market();
    m.buy_item(S, 0, 3, 300, B).unwrap();
    m.buy_item(S, 0, 1, 150, B).unwrap();
    // X takes the remaining 6 copies: the cap of 10 is reached.
    m.buy_item(S, 0, 6, 600, X).unwrap();
    // B becomes a seller of record by creating an item of its own.
    let dummy = m.new_item(
        "Shield".to_string(),
        "Arena".to_string(),
        "ipfs://shield".to_string(),
        1,
        1,
        B,
    );
    assert_eq!(dummy, 1);
    m
}

#[test]
fn scenario_resale_transfer() {
    let mut m = resale_market();
    m.set_item_for_sale(0, 2, 40, B).unwrap();
    let item = m.get_item(0).unwrap();
    let b_entry = item.owners.iter().find(|e| e.holder == B).unwrap();
    assert_eq!(b_entry.copies_listed, 2);
    assert_eq!(b_entry.listed_price, 40);

    let s = m.buy_item(B, 0, 2, 80, C).unwrap();
    assert_eq!(
        s,
        Settlement { pay_to: B, paid: 80, refund_to: C, refunded: 0 }
    );
    let item = m.get_item(0).unwrap();
    assert_eq!(item.current_supply, 10);
    let b_entry = item.owners.iter().find(|e| e.holder == B).unwrap();
    assert_eq!(b_entry.copies_owned, 2);
    assert_eq!(b_entry.copies_listed, 0);
    let c_entry = item.owners.iter().find(|e| e.holder == C).unwrap();
    assert_eq!(c_entry.copies_owned, 2);

    let b_owned = m.get_owned_items(B);
    assert_eq!(b_owned[0].item_id, 0);
    assert_eq!(b_owned[0].copies_owned, 2);
    let c_owned = m.get_owned_items(C);
    assert_eq!(c_owned.len(), 1);
    assert_eq!(c_owned[0].copies_owned, 2);
}

#[test]
fn scenario_nonowner_resale_refused() {
    let mut m = resale_market();
    // E is a registered seller but holds no entry for the sword.
    m.new_item(
        "Bow".to_string(),
        "Arena".to_string(),
        "ipfs://bow".to_string(),
        5,
        5,
        E,
    );
    let r = m.buy_item(E, 0, 1, 100, D);
    assert_eq!(r, Err(MarketError::SellerDoesNotOwnItem));
}

#[test]
fn scenario_unlisted_holder_cannot_resell() {
    let mut m = resale_market();
    // B owns 4 copies but has listed none; the cap is full.
    let r = m.buy_item(B, 0, 1, 100, D);
    assert_eq!(r, Err(MarketError::InsufficientListedCopies));
}

#[test]
fn scenario_listing_requires_ownership() {
    let mut m = sword_market();
    let r = m.set_item_for_sale(0, 1, 5, D);
    assert_eq!(r, Err(MarketError::NotOwner));
}

#[test]
fn over_cap_mint_diverts_to_resale() {
    let mut m = Market::default();
    m.new_item(
        "Gem".to_string(),
        "Mine".to_string(),
        "ipfs://gem".to_string(),
        10,
        3,
        S,
    );
    m.buy_item(S, 0, 2, 20, B).unwrap();
    // 2 + 2 > 3: the request leaves the mint path, and S holds no copies.
    let r = m.buy_item(S, 0, 2, 100, C);
    assert_eq!(r, Err(MarketError::SellerDoesNotOwnItem));
    assert_eq!(m.get_item(0).unwrap().current_supply, 2);
}

#[test]
fn self_purchase_keeps_holdings() {
    let mut m = resale_market();
    m.set_item_for_sale(0, 2, 40, B).unwrap();
    let s = m.buy_item(B, 0, 1, 40, B).unwrap();
    assert_eq!(s.paid, 40);
    assert_eq!(s.refunded, 0);
    let item = m.get_item(0).unwrap();
    let b_entry = item.owners.iter().find(|e| e.holder == B).unwrap();
    assert_eq!(b_entry.copies_owned, 4);
    assert_eq!(b_entry.copies_listed, 1);
    assert_eq!(m.get_owned_items(B)[0].copies_owned, 4);
}

#[test]
fn ledgers_agree_on_concrete_history() {
    let mut m = resale_market();
    m.set_item_for_sale(0, 2, 40, B).unwrap();
    m.buy_item(B, 0, 2, 80, C).unwrap();
    for id in 0..m.get_item_count() {
        let item = m.get_item(id).unwrap();
        // Owned copies add up to what was minted, within the cap.
        let total: u64 = item.owners.iter().map(|e| e.copies_owned as u64).sum();
        assert_eq!(total, item.current_supply as u64);
        assert!(item.current_supply <= item.max_supply);
        for e in &item.owners {
            // Nobody lists more than they own.
            assert!(e.copies_listed <= e.copies_owned);
            // The global index agrees with the per-item entry.
            let indexed = m
                .get_owned_items(e.holder)
                .iter()
                .find(|x| x.item_id == id)
                .map(|x| x.copies_owned)
                .unwrap_or(0);
            assert_eq!(indexed, e.copies_owned);
        }
    }
}

#[test]
fn failed_purchase_changes_nothing() {
    let mut m = sword_market();
    let r = m.buy_item(S, 0, 3, 299, B);
    assert_eq!(r, Err(MarketError::InsufficientFunds));
    let item = m.get_item(0).unwrap();
    assert_eq!(item.current_supply, 0);
    assert_eq!(item.owners.len(), 0);
    assert_eq!(m.get_owned_items(B).len(), 0);
}
