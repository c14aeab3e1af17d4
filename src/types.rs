//! Plain value types shared by the ledgers: identifiers, balances, positions
//! and errors.
use vstd::prelude::*;

verus! {

pub type AccountId = u128;

/// An unsigned balance of some currency.
pub type Balance = u128;

/// A signed adjustment of a balance.
pub type Amount = i128;

#[derive(Clone, Copy, Debug, PartialEq, Eq, Structural)]
pub enum TokenSymbol {
    SETM,
    SERP,
    DNAR,
    SETR,
    SETUSD,
}

#[derive(Clone, Copy, Debug, PartialEq, Eq, Structural)]
pub enum CurrencyId {
    Token(TokenSymbol),
    /// The liquidity-pool share of a pair of tokens.
    DexShare(TokenSymbol, TokenSymbol),
}

impl CurrencyId {
    /// The two tokens underlying a liquidity-pool share.
    pub fn split_dex_share_currency_id(&self) -> (r: Option<(CurrencyId, CurrencyId)>)
        ensures
            r == match *self {
                CurrencyId::DexShare(a, b) => Some((CurrencyId::Token(a), CurrencyId::Token(b))),
                CurrencyId::Token(_) => None::<(CurrencyId, CurrencyId)>,
            },
    {
        match *self {
            CurrencyId::DexShare(a, b) => Some((CurrencyId::Token(a), CurrencyId::Token(b))),
            CurrencyId::Token(_) => None,
        }
    }
}

/// One account's collateral and debit for one collateral type.
#[derive(Clone, Copy, Debug, PartialEq, Eq, Structural)]
pub struct Position {
    pub collateral: Balance,
    pub debit: Balance,
}

#[derive(Clone, Copy, Debug, PartialEq, Eq, Structural)]
pub enum ArithmeticError {
    Underflow,
    Overflow,
    DivisionByZero,
}

/// Refusals of the multi-currency balance ledger.
#[derive(Clone, Copy, Debug, PartialEq, Eq, Structural)]
pub enum TokenError {
    /// The source account holds less than the amount.
    BalanceTooLow,
    /// The receiving account would hold a non-zero balance below the
    /// existential deposit.
    ExistentialDeposit,
}

/// Refusals of the treasury ledger.
#[derive(Clone, Copy, Debug, PartialEq, Eq, Structural)]
pub enum Error {
    /// The collateral amount of the treasury is not enough
    CollateralNotEnough,
    /// The surplus pool of the treasury is not enough
    SurplusPoolNotEnough,
    /// The debit pool of the treasury is not enough
    DebitPoolNotEnough,
    /// Cannot use collateral to swap stable
    CannotSwap,
    /// The currency id is not a liquidity-pool share
    NotDexShare,
}

/// Every error that an operation of the ledgers can surface.
#[derive(Clone, Copy, Debug, PartialEq, Eq)]
pub enum DispatchError {
    Arithmetic(ArithmeticError),
    Token(TokenError),
    Treasury(Error),
    /// A balance too large to be written as a signed adjustment.
    AmountConvertFailed,
    /// A rejection by a collaborator, with its reason.
    Other(&'static str),
}

pub type DispatchResult = Result<(), DispatchError>;

/// How a swap is bounded: an exact supply with a minimum target, or an
/// exact target with a maximum supply.
#[derive(Clone, Copy, Debug, PartialEq, Eq, Structural)]
pub enum SwapLimit {
    ExactSupply(Balance, Balance),
    ExactTarget(Balance, Balance),
}

impl SwapLimit {
    /// The most that the swap may take from the supplier.
    pub open spec fn supply_limit_spec(self) -> Balance {
        match self {
            SwapLimit::ExactSupply(s, _) => s,
            SwapLimit::ExactTarget(s, _) => s,
        }
    }

    pub fn supply_limit(&self) -> (r: Balance)
        ensures
            r == self.supply_limit_spec(),
    {
        match *self {
            SwapLimit::ExactSupply(s, _) => s,
            SwapLimit::ExactTarget(s, _) => s,
        }
    }
}

/// The magnitude of a signed adjustment.
pub fn magnitude(a: Amount) -> (r: Balance)
    ensures
        r as int == if a >= 0 { a as int } else { -(a as int) },
{
    if a >= 0 {
        a as u128
    } else {
        (-(a + 1)) as u128 + 1
    }
}

/// A balance as a signed adjustment, where it fits.
pub fn amount_try_from_balance(b: Balance) -> (r: Result<Amount, DispatchError>)
    ensures
        b <= i128::MAX ==> r == Ok::<Amount, DispatchError>(b as i128),
        b > i128::MAX ==> r == Err::<Amount, DispatchError>(DispatchError::AmountConvertFailed),
{
    if b <= i128::MAX as u128 {
        Ok(b as i128)
    } else {
        Err(DispatchError::AmountConvertFailed)
    }
}

} // verus!
