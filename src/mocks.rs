//! Simple collaborators for exercising the ledgers: a risk manager with
//! fixed verdicts, an auction manager and a treasury that record what they
//! are handed, a price source at par, a switchable shutdown flag, and a
//! missing exchange.
use crate::tokens::Tokens;
use crate::traits::{AuctionManager, CollateralAuction, DexManager, RiskManager, SerpTreasury};
use crate::types::{AccountId, Balance, CurrencyId, DispatchError, DispatchResult, SwapLimit, TokenSymbol};
use vstd::prelude::*;

verus! {

/// Refuses every DNAR position, accepts every SERP position, and refuses a
/// total debit of exactly 1000 for either.
pub struct MockRiskManager;

impl RiskManager for MockRiskManager {
    open spec fn position_verdict(&self, c: CurrencyId, collateral: Balance, debit: Balance, check_required_ratio: bool) -> DispatchResult {
        if c == CurrencyId::Token(TokenSymbol::DNAR) {
            if check_required_ratio {
                Err(DispatchError::Other("mock below required collateral ratio error"))
            } else {
                Err(DispatchError::Other("mock below liquidation ratio error"))
            }
        } else if c == CurrencyId::Token(TokenSymbol::SERP) {
            Ok(())
        } else {
            Err(DispatchError::Other("mock below liquidation ratio error"))
        }
    }

    open spec fn debit_cap_verdict(&self, c: CurrencyId, total_debit: Balance) -> DispatchResult {
        if (c == CurrencyId::Token(TokenSymbol::DNAR) || c == CurrencyId::Token(TokenSymbol::SERP)) && total_debit == 1000 {
            Err(DispatchError::Other("mock exceed debit value cap error"))
        } else {
            Ok(())
        }
    }

    fn check_position_valid(&self, c: CurrencyId, collateral: Balance, debit: Balance, check_required_ratio: bool) -> (r: DispatchResult) {
        if c == CurrencyId::Token(TokenSymbol::DNAR) {
            if check_required_ratio {
                Err(DispatchError::Other("mock below required collateral ratio error"))
            } else {
                Err(DispatchError::Other("mock below liquidation ratio error"))
            }
        } else if c == CurrencyId::Token(TokenSymbol::SERP) {
            Ok(())
        } else {
            Err(DispatchError::Other("mock below liquidation ratio error"))
        }
    }

    fn check_debit_cap(&self, c: CurrencyId, total_debit: Balance) -> (r: DispatchResult) {
        if (c == CurrencyId::Token(TokenSymbol::DNAR) || c == CurrencyId::Token(TokenSymbol::SERP)) && total_debit == 1000 {
            Err(DispatchError::Other("mock exceed debit value cap error"))
        } else {
            Ok(())
        }
    }
}

/// Accepts every auction, keeps a record of them, and locks no collateral.
pub struct MockAuctionManager {
    pub auctions: Vec<CollateralAuction>,
    pub requests: Vec<(CollateralAuction, DispatchResult)>,
}

impl MockAuctionManager {
    pub fn new() -> (r: MockAuctionManager)
        ensures
            r.auctions() == Seq::<CollateralAuction>::empty(),
            r.requests() == Seq::<(CollateralAuction, DispatchResult)>::empty(),
    {
        MockAuctionManager { auctions: Vec::new(), requests: Vec::new() }
    }
}

impl AuctionManager for MockAuctionManager {
    open spec fn auctions(&self) -> Seq<CollateralAuction> {
        self.auctions@
    }

    open spec fn requests(&self) -> Seq<(CollateralAuction, DispatchResult)> {
        self.requests@
    }

    open spec fn collateral_in_auction(&self, c: CurrencyId) -> Balance {
        0
    }

    fn new_collateral_auction(&mut self, refund_recipient: AccountId, c: CurrencyId, amount: Balance, target: Balance) -> (r: DispatchResult) {
        let auction = CollateralAuction { refund_recipient, currency_id: c, amount, target };
        self.auctions.push(auction);
        self.requests.push((auction, Ok(())));
        Ok(())
    }

    fn get_total_collateral_in_auction(&self, c: CurrencyId) -> (r: Balance) {
        0
    }

    fn get_total_target_in_auction(&self) -> Balance {
        0
    }
}

/// Accepts every surplus handed to it and keeps a record.
pub struct MockSerpTreasury {
    pub serplus: Vec<(CurrencyId, Balance)>,
}

impl MockSerpTreasury {
    pub fn new() -> (r: MockSerpTreasury)
        ensures
            r.serplus@ == Seq::<(CurrencyId, Balance)>::empty(),
    {
        MockSerpTreasury { serplus: Vec::new() }
    }
}

impl SerpTreasury for MockSerpTreasury {
    open spec fn received(&self) -> Seq<(CurrencyId, Balance)> {
        self.serplus@
    }

    open spec fn serplus_verdict(&self, c: CurrencyId, amount: Balance) -> DispatchResult {
        Ok(())
    }

    fn on_serplus(&mut self, tokens: &mut Tokens, c: CurrencyId, amount: Balance) -> (r: DispatchResult) {
        self.serplus.push((c, amount));
        Ok(())
    }
}

/// No exchange: there is never a path, and nothing can be swapped or
/// redeemed.
impl DexManager for () {
    open spec fn best_path(&self, supply: CurrencyId, target: CurrencyId, limit: SwapLimit, alternatives: Seq<Vec<CurrencyId>>) -> Option<Seq<CurrencyId>> {
        None
    }

    open spec fn swap_outcome(&self, tokens: Tokens, who: AccountId, path: Seq<CurrencyId>, limit: SwapLimit) -> Result<(Balance, Balance), DispatchError> {
        Err(DispatchError::Other("no exchange"))
    }

    open spec fn removal_outcome(
        &self,
        tokens: Tokens,
        who: AccountId,
        c0: CurrencyId,
        c1: CurrencyId,
        share: Balance,
        min_0: Balance,
        min_1: Balance,
    ) -> Result<(Balance, Balance), DispatchError> {
        Err(DispatchError::Other("no exchange"))
    }

    fn get_best_price_swap_path(
        &self,
        supply: CurrencyId,
        target: CurrencyId,
        limit: SwapLimit,
        alternatives: &Vec<Vec<CurrencyId>>,
    ) -> (r: Option<Vec<CurrencyId>>) {
        None
    }

    fn swap_with_specific_path(&mut self, tokens: &mut Tokens, who: AccountId, path: &Vec<CurrencyId>, limit: SwapLimit) -> (r: Result<(Balance, Balance), DispatchError>) {
        Err(DispatchError::Other("no exchange"))
    }

    fn remove_liquidity(
        &mut self,
        tokens: &mut Tokens,
        who: AccountId,
        c0: CurrencyId,
        c1: CurrencyId,
        share: Balance,
        min_0: Balance,
        min_1: Balance,
    ) -> (r: Result<(Balance, Balance), DispatchError>) {
        Err(DispatchError::Other("no exchange"))
    }
}

/// A fixed-point price with eighteen decimals.
#[derive(Clone, Copy, Debug, PartialEq, Eq, Structural)]
pub struct Price {
    pub inner: u128,
}

pub const PRICE_ONE: u128 = 1_000_000_000_000_000_000;

/// A source of prices.
pub trait PriceProvider {
    fn get_relative_price(&self, base: CurrencyId, quote: CurrencyId) -> Option<Price>;

    fn get_price(&self, c: CurrencyId) -> Option<Price>;
}

/// Every price is one.
pub struct MockPriceSource;

impl PriceProvider for MockPriceSource {
    fn get_relative_price(&self, base: CurrencyId, quote: CurrencyId) -> Option<Price> {
        Some(Price { inner: PRICE_ONE })
    }

    fn get_price(&self, c: CurrencyId) -> Option<Price> {
        Some(Price { inner: PRICE_ONE })
    }
}

/// Whether the system has been shut down.
pub trait EmergencyShutdown {
    spec fn shut(&self) -> bool;

    fn is_shutdown(&self) -> (r: bool)
        ensures
            r == self.shut(),
    ;
}

/// A shutdown flag that starts off and can be switched on.
pub struct MockEmergencyShutdown {
    shutdown: bool,
}

impl MockEmergencyShutdown {
    pub fn new() -> (r: MockEmergencyShutdown)
        ensures
            !r.shut(),
    {
        MockEmergencyShutdown { shutdown: false }
    }
}

impl EmergencyShutdown for MockEmergencyShutdown {
    closed spec fn shut(&self) -> bool {
        self.shutdown
    }

    fn is_shutdown(&self) -> (r: bool) {
        self.shutdown
    }
}

/// Switches the shutdown flag on.
pub fn mock_shutdown(flag: &mut MockEmergencyShutdown)
    ensures
        final(flag).shut(),
{
    flag.shutdown = true;
}

} // verus!
