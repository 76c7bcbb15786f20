use vstd::prelude::*;

verus! {

/// An account on the chain: a holder, a firm or the sudo key.
pub type AccountId = u64;

/// An amount of the chain's currency.
pub type Balance = u128;

/// The 32-byte hash that identifies an order.
pub type OrderId = [u8; 32];

/// A standing offer to buy `amount` shares of `firm` at no more than
/// `max_price` each. The price of the whole order is reserved from the
/// owner's free balance while the order stands.
#[derive(Clone, Copy, Debug, PartialEq, Eq)]
pub struct BuyOrder {
    pub firm: AccountId,
    pub owner: AccountId,
    pub max_price: Balance,
    pub amount: u64,
    pub order_id: OrderId,
}

/// A standing offer to sell `amount` shares of `firm` at no less than
/// `min_price` each. The shares are locked while the order stands.
#[derive(Clone, Copy, Debug, PartialEq, Eq)]
pub struct SellOrder {
    pub firm: AccountId,
    pub owner: AccountId,
    pub min_price: Balance,
    pub amount: u64,
    pub order_id: OrderId,
}

/// Who dispatched a call.
#[derive(Clone, Copy, Debug, PartialEq, Eq)]
pub enum Origin {
    Root,
    Signed(AccountId),
    Unsigned,
}

/// A dispatchable call of the module, with its arguments.
#[derive(Clone, Copy, Debug, PartialEq, Eq)]
pub enum Call {
    /// firm, amount, minimum price
    PutSellOrder(AccountId, u64, Balance),
    /// firm, amount, maximum price
    PutBuyOrder(AccountId, u64, Balance),
    /// firm, authorized shares
    GiveIssueRights(AccountId, u64),
    /// firm
    RevokeIssueRights(AccountId),
    /// firm, new limit
    ChangeAuthorizedShares(AccountId, u64),
    /// amount
    IssueShares(u64),
    /// amount
    RetireShares(u64),
    CloseMarket,
    OpenMarket,
}

/// What the module reports after a state change.
#[derive(Clone, Copy, Debug, PartialEq, Eq)]
pub enum Event {
    /// firm, authorized shares
    GaveFirmIssueRight(AccountId, u64),
    /// firm
    RevokedFirmIssueRight(AccountId),
    /// caller, frozen
    MarketFrozen(AccountId, bool),
    /// firm, new limit
    AdjustedAuthorizedStock(AccountId, u64),
    /// firm, amount
    IssuedShares(AccountId, u64),
    /// firm, amount
    RetiredShares(AccountId, u64),
    /// sender, receiver, firm, amount
    TransferredShares(AccountId, AccountId, AccountId, u64),
    /// owner, firm, amount, minimum price, order id
    SubmittedSellOrder(AccountId, AccountId, u64, Balance, OrderId),
    /// owner, firm, amount, maximum price, order id
    SubmittedBuyOrder(AccountId, AccountId, u64, Balance, OrderId),
    /// owner, firm, amount
    LockedShares(AccountId, AccountId, u64),
    /// owner, firm, amount
    UnlockedShares(AccountId, AccountId, u64),
}

/// Why the currency refused to move funds.
#[derive(Clone, Copy, Debug, PartialEq, Eq)]
pub enum CurrencyError {
    /// A reservation asked for more than the free balance.
    NotEnoughFreeFunds,
    /// A transfer asked for more than the sender's free balance.
    BalanceTooLow,
    /// A transfer would overflow the receiver's free balance.
    DestinationTooHigh,
    /// A reservation would overflow the reserved balance.
    ReservedTooHigh,
}

/// Why a call of the module was refused.
#[derive(Clone, Copy, Debug, PartialEq, Eq)]
pub enum MarketError {
    BadOrigin,
    MarketFrozen,
    ZeroSellPrice,
    ZeroBuyPrice,
    NotEnoughShares,
    TotalPriceOverflow,
    NotEnoughFreeBalance,
    CannotAffordLock,
    ReserveRefused,
    NotSudo,
    SelfGrant,
    AlreadyAllowed,
    ZeroLimit,
    SelfRevoke,
    AlreadyNotAllowed,
    FirmNotAllowed,
    OwnLimit,
    LimitBelowIssued,
    IssueNotAllowed,
    IssueOverflow,
    AuthorizedReached,
    HoldingOverflow,
    RetireNotEnough,
    FloatingUnderflow,
    AlreadyFrozen,
    AlreadyOpen,
    FirmNotFound,
    LockNotEnough,
    LockOverflow,
    UnlockTooMuch,
    UnlockOverflow,
    TransferUnderflow,
    TransferOverflow,
    Currency(CurrencyError),
}

/// The text that the currency reports for `e`.
pub open spec fn currency_error_text(e: CurrencyError) -> Seq<char> {
    match e {
        CurrencyError::NotEnoughFreeFunds => "not enough free funds"@,
        CurrencyError::BalanceTooLow => "balance too low to send value"@,
        CurrencyError::DestinationTooHigh => "destination balance too high to receive value"@,
        CurrencyError::ReservedTooHigh => "reserved balance too high to reserve value"@,
    }
}

impl CurrencyError {
    /// The text that the currency reports for this refusal.
    pub fn message(&self) -> (r: &'static str)
        ensures
            r@ == currency_error_text(*self),
    {
        match self {
            CurrencyError::NotEnoughFreeFunds => "not enough free funds",
            CurrencyError::BalanceTooLow => "balance too low to send value",
            CurrencyError::DestinationTooHigh => "destination balance too high to receive value",
            CurrencyError::ReservedTooHigh => "reserved balance too high to reserve value",
        }
    }
}

/// The text that the module reports for `e`.
pub open spec fn market_error_text(e: MarketError) -> Seq<char> {
    match e {
        MarketError::BadOrigin => "bad origin: expected to be a signed origin"@,
        MarketError::MarketFrozen => "[Error]the market is frozen right now"@,
        MarketError::ZeroSellPrice => "[Error]you cannot sell for 0"@,
        MarketError::ZeroBuyPrice => "[Error]you cannot buy for 0"@,
        MarketError::NotEnoughShares => "[Error]you do not own enough shares of this company"@,
        MarketError::TotalPriceOverflow => "[Error]overflow in calculating total price"@,
        MarketError::NotEnoughFreeBalance => "[Error]you don't have enough free balance for this trade"@,
        MarketError::CannotAffordLock => "[Error]locker can't afford to lock the amount requested"@,
        MarketError::ReserveRefused => "locker can't afford to lock the amount requested"@,
        MarketError::NotSudo => "[Error]the caller must have sudo key to give rights"@,
        MarketError::SelfGrant => "[Error]you cannot give rights to yourself"@,
        MarketError::AlreadyAllowed => "[Error]the firm is already allowed to issue shares"@,
        MarketError::ZeroLimit => "[Error]the value must be greater than 0"@,
        MarketError::SelfRevoke => "[Error]you cannot take rights to yourself"@,
        MarketError::AlreadyNotAllowed => "[Error]the firm is already not allowed to issue shares"@,
        MarketError::FirmNotAllowed => "[Error]the firm is not allowed to issue shares"@,
        MarketError::OwnLimit => "[Error]you cannot change your own issue limit"@,
        MarketError::LimitBelowIssued => "[Error]the firm cannot limit shares less than the already issued amount"@,
        MarketError::IssueNotAllowed => "[Error]this firm is not allowed to issue additional shares"@,
        MarketError::IssueOverflow => "[Error]overflowing when issuing new shares"@,
        MarketError::AuthorizedReached => "[Error]already issued the maximum amount of shares"@,
        MarketError::HoldingOverflow => "[Error]overflow while adding issued shares to the firm's holding"@,
        MarketError::RetireNotEnough => "[Error]you do not have enough shares to retire"@,
        MarketError::FloatingUnderflow => "[Error]underflow while subtracting floating shares"@,
        MarketError::AlreadyFrozen => "[Error]the market is already frozen"@,
        MarketError::AlreadyOpen => "[Error]the market is already not frozen"@,
        MarketError::FirmNotFound => "[Error]the firm does not exists"@,
        MarketError::LockNotEnough => "[Error]the account does not hold enough shares"@,
        MarketError::LockOverflow => "[Error]overflow while calculating locked shares"@,
        MarketError::UnlockTooMuch => "[Error]cannot unlock more than what is locked"@,
        MarketError::UnlockOverflow => "[Error]overflow while calculating total shares after unlock"@,
        MarketError::TransferUnderflow => "[Error]underflow while subtracting shares. You don't own enough shares"@,
        MarketError::TransferOverflow => "[Error]overflow while adding shares"@,
        MarketError::Currency(e) => currency_error_text(e),
    }
}

impl MarketError {
    /// The text that the module reports for this refusal.
    pub fn message(&self) -> (r: &'static str)
        ensures
            r@ == market_error_text(*self),
    {
        match self {
            MarketError::BadOrigin => "bad origin: expected to be a signed origin",
            MarketError::MarketFrozen => "[Error]the market is frozen right now",
            MarketError::ZeroSellPrice => "[Error]you cannot sell for 0",
            MarketError::ZeroBuyPrice => "[Error]you cannot buy for 0",
            MarketError::NotEnoughShares => "[Error]you do not own enough shares of this company",
            MarketError::TotalPriceOverflow => "[Error]overflow in calculating total price",
            MarketError::NotEnoughFreeBalance => "[Error]you don't have enough free balance for this trade",
            MarketError::CannotAffordLock => "[Error]locker can't afford to lock the amount requested",
            MarketError::ReserveRefused => "locker can't afford to lock the amount requested",
            MarketError::NotSudo => "[Error]the caller must have sudo key to give rights",
            MarketError::SelfGrant => "[Error]you cannot give rights to yourself",
            MarketError::AlreadyAllowed => "[Error]the firm is already allowed to issue shares",
            MarketError::ZeroLimit => "[Error]the value must be greater than 0",
            MarketError::SelfRevoke => "[Error]you cannot take rights to yourself",
            MarketError::AlreadyNotAllowed => "[Error]the firm is already not allowed to issue shares",
            MarketError::FirmNotAllowed => "[Error]the firm is not allowed to issue shares",
            MarketError::OwnLimit => "[Error]you cannot change your own issue limit",
            MarketError::LimitBelowIssued => "[Error]the firm cannot limit shares less than the already issued amount",
            MarketError::IssueNotAllowed => "[Error]this firm is not allowed to issue additional shares",
            MarketError::IssueOverflow => "[Error]overflowing when issuing new shares",
            MarketError::AuthorizedReached => "[Error]already issued the maximum amount of shares",
            MarketError::HoldingOverflow => "[Error]overflow while adding issued shares to the firm's holding",
            MarketError::RetireNotEnough => "[Error]you do not have enough shares to retire",
            MarketError::FloatingUnderflow => "[Error]underflow while subtracting floating shares",
            MarketError::AlreadyFrozen => "[Error]the market is already frozen",
            MarketError::AlreadyOpen => "[Error]the market is already not frozen",
            MarketError::FirmNotFound => "[Error]the firm does not exists",
            MarketError::LockNotEnough => "[Error]the account does not hold enough shares",
            MarketError::LockOverflow => "[Error]overflow while calculating locked shares",
            MarketError::UnlockTooMuch => "[Error]cannot unlock more than what is locked",
            MarketError::UnlockOverflow => "[Error]overflow while calculating total shares after unlock",
            MarketError::TransferUnderflow => "[Error]underflow while subtracting shares. You don't own enough shares",
            MarketError::TransferOverflow => "[Error]overflow while adding shares",
            MarketError::Currency(e) => e.message(),
        }
    }
}

/// The value that `m` holds at `k`, or `d` where it holds none: how a
/// storage map with a default value reads.
pub open spec fn map_or<K, V>(m: Map<K, V>, k: K, d: V) -> V {
    if m.contains_key(k) {
        m[k]
    } else {
        d
    }
}

} // verus!
