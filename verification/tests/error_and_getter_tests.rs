use market::{Market, MarketError};

const S1: u64 = 11;
const S2: u64 = 12;
const B: u64 = 21;
const C: u64 = 22;

fn two_item_market() -> Market {
    let mut m = Market::default();
    let a = m.new_item(
        "Axe".to_string(),
        "Forest".to_string(),
        "ipfs://axe".to_string(),
        7,
        4,
        S1,
    );
    let b = m.new_item(
        "Helm".to_string(),
        "Forest".to_string(),
        "ipfs://helm".to_string(),
        3,
        2,
        S1,
    );
    assert_eq!((a, b), (0, 1));
    m
}

#[test]
fn unknown_seller_refused() {
    let mut m = two_item_market();
    assert_eq!(m.buy_item(B, 0, 1, 10, C), Err(MarketError::SellerNotFound));
}

#[test]
fn unknown_item_refused() {
    let mut m = two_item_market();
    assert_eq!(m.buy_item(S1, 9, 1, 10, C), Err(MarketError::ItemNotFound));
    assert!(matches!(m.get_item(9), Err(MarketError::ItemNotFound)));
    assert_eq!(
        m.set_item_for_sale(9, 1, 1, B),
        Err(MarketError::ItemNotFound)
    );
}

#[test]
fn exhausted_item_unavailable() {
    let mut m = Market::default();
    m.new_item(
        "Relic".to_string(),
        "Vault".to_string(),
        "ipfs://relic".to_string(),
        50,
        0,
        S1,
    );
    assert_eq!(
        m.buy_item(S1, 0, 1, 50, B),
        Err(MarketError::ItemUnavailable)
    );
}

#[test]
fn mint_requires_seller_of_record() {
    let mut m = two_item_market();
    m.new_item(
        "Lamp".to_string(),
        "Cave".to_string(),
        "ipfs://lamp".to_string(),
        1,
        1,
        S2,
    );
    // S2 is a registered seller, but not the seller of item 0.
    assert_eq!(m.buy_item(S2, 0, 1, 10, B), Err(MarketError::NotSeller));
}

#[test]
fn price_overflow_detected() {
    let mut m = Market::default();
    m.new_item(
        "Crown".to_string(),
        "Vault".to_string(),
        "ipfs://crown".to_string(),
        u128::MAX,
        5,
        S1,
    );
    assert_eq!(
        m.buy_item(S1, 0, 2, u128::MAX, B),
        Err(MarketError::ArithmeticOverflow)
    );
    // One copy at the maximum price still settles exactly.
    let s = m.buy_item(S1, 0, 1, u128::MAX, B).unwrap();
    assert_eq!(s.paid, u128::MAX);
    assert_eq!(s.refunded, 0);
}

#[test]
fn resale_amount_checks() {
    let mut m = Market::default();
    m.new_item(
        "Coin".to_string(),
        "Mint".to_string(),
        "ipfs://coin".to_string(),
        10,
        2,
        S1,
    );
    m.buy_item(S1, 0, 2, 20, B).unwrap();
    // B registers as a seller and lists one of its two copies.
    m.new_item(
        "Note".to_string(),
        "Mint".to_string(),
        "ipfs://note".to_string(),
        1,
        1,
        B,
    );
    m.set_item_for_sale(0, 1, 5, B).unwrap();
    assert_eq!(
        m.buy_item(B, 0, 3, 100, C),
        Err(MarketError::InsufficientOwnedCopies)
    );
    assert_eq!(
        m.buy_item(B, 0, 2, 100, C),
        Err(MarketError::InsufficientListedCopies)
    );
    assert_eq!(
        m.buy_item(B, 0, 1, 4, C),
        Err(MarketError::InsufficientFunds)
    );
    let s = m.buy_item(B, 0, 1, 9, C).unwrap();
    assert_eq!(s.paid, 5);
    assert_eq!(s.refunded, 4);
    assert_eq!(s.pay_to, B);
    assert_eq!(s.refund_to, C);
}

#[test]
fn listing_cannot_exceed_owned() {
    let mut m = Market::default();
    m.new_item(
        "Map".to_string(),
        "Sea".to_string(),
        "ipfs://map".to_string(),
        10,
        5,
        S1,
    );
    m.buy_item(S1, 0, 3, 30, B).unwrap();
    assert_eq!(
        m.set_item_for_sale(0, 4, 9, B),
        Err(MarketError::InsufficientOwnedCopies)
    );
    m.set_item_for_sale(0, 3, 9, B).unwrap();
    let item = m.get_item(0).unwrap();
    assert_eq!(item.owners[0].copies_listed, 3);
    assert_eq!(item.owners[0].listed_price, 9);
}

#[test]
fn catalog_getters() {
    let m = two_item_market();
    assert_eq!(m.get_item_count(), 2);

    let all = m.get_all_items();
    assert_eq!(all.len(), 2);
    assert_eq!(all[0].name, "Axe");
    assert_eq!(all[1].name, "Helm");

    let picked = m.get_specific_items(vec![1, 0]).unwrap();
    assert_eq!(picked[0].name, "Helm");
    assert_eq!(picked[1].name, "Axe");
    assert!(matches!(
        m.get_specific_items(vec![0, 2]),
        Err(MarketError::ItemNotFound)
    ));

    let got = m.get_item(1).unwrap();
    assert_eq!(got.game, "Forest");
    assert_eq!(got.uri, "ipfs://helm");
    assert_eq!(got.price, 3);
    assert_eq!(got.max_supply, 2);
}

#[test]
fn supplier_getters() {
    let mut m = two_item_market();
    m.new_item(
        "Lamp".to_string(),
        "Cave".to_string(),
        "ipfs://lamp".to_string(),
        1,
        1,
        S2,
    );
    // One entry per distinct seller, in first-creation order.
    assert_eq!(m.get_all_suppliers(), vec![S1, S2]);
    assert_eq!(m.get_supplier_items(S1), vec![0, 1]);
    assert_eq!(m.get_supplier_items(S2), vec![2]);
    assert_eq!(m.get_supplier_items(B), Vec::<u32>::new());
}

#[test]
fn index_tracks_across_items() {
    let mut m = two_item_market();
    m.buy_item(S1, 0, 2, 14, B).unwrap();
    m.buy_item(S1, 1, 1, 3, B).unwrap();
    let owned = m.get_owned_items(B);
    assert_eq!(owned.len(), 2);
    assert_eq!((owned[0].item_id, owned[0].copies_owned), (0, 2));
    assert_eq!((owned[1].item_id, owned[1].copies_owned), (1, 1));
    assert_eq!(m.get_owned_items(C).len(), 0);
}
