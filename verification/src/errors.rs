use crate::account::AccountId;
use vstd::prelude::*;

verus! {

/// The reasons a market command can be refused. Every refused command leaves
/// the market exactly as it was.
#[derive(Clone, Copy, Debug, PartialEq, Eq, Structural)]
pub enum MarketError {
    /// `buy_from` has never created an item, so it is not a seller of record.
    SellerNotFound,
    /// No item carries the requested id.
    ItemNotFound,
    /// The item is fully minted and nobody holds a copy of it.
    ItemUnavailable,
    /// Only the item's seller of record may mint new copies.
    NotSeller,
    /// The caller holds no ownership entry for the item.
    NotOwner,
    /// The named holder has no ownership entry for the item.
    SellerDoesNotOwnItem,
    /// The holder owns fewer copies than the command asks for.
    InsufficientOwnedCopies,
    /// The holder has listed fewer copies for sale than the command asks for.
    InsufficientListedCopies,
    /// The total price does not fit the payment integer width.
    ArithmeticOverflow,
    /// The payment attached to the purchase is below the total price.
    InsufficientFunds,
}

/// What a successful purchase settles: the full price goes to the party sold
/// from, and any excess payment goes back to the caller. A `refunded` of zero
/// means no refund is owed.
#[derive(Clone, Copy, Debug, PartialEq, Eq, Structural)]
pub struct Settlement {
    pub pay_to: AccountId,
    pub paid: u128,
    pub refund_to: AccountId,
    pub refunded: u128,
}

} // verus!
