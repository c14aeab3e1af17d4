//! The collaborators that the ledgers consult: a risk manager, an auction
//! manager, a decentralized exchange and the wider stable-currency treasury.
use crate::tokens::Tokens;
use crate::types::{AccountId, Balance, CurrencyId, DispatchError, DispatchResult, SwapLimit};
use vstd::prelude::*;

verus! {

/// A collateral auction as handed to the auction manager.
#[derive(Clone, Copy, Debug, PartialEq, Eq, Structural)]
pub struct CollateralAuction {
    pub refund_recipient: AccountId,
    pub currency_id: CurrencyId,
    pub amount: Balance,
    pub target: Balance,
}

/// Decides whether a position is acceptable.
pub trait RiskManager {
    /// The verdict on a position of `collateral` and `debit` of type `c`.
    spec fn position_verdict(&self, c: CurrencyId, collateral: Balance, debit: Balance, check_required_ratio: bool) -> DispatchResult;

    /// The verdict on a total debit of `total_debit` for type `c`.
    spec fn debit_cap_verdict(&self, c: CurrencyId, total_debit: Balance) -> DispatchResult;

    fn check_position_valid(&self, c: CurrencyId, collateral: Balance, debit: Balance, check_required_ratio: bool) -> (r: DispatchResult)
        ensures
            r == self.position_verdict(c, collateral, debit, check_required_ratio),
    ;

    fn check_debit_cap(&self, c: CurrencyId, total_debit: Balance) -> (r: DispatchResult)
        ensures
            r == self.debit_cap_verdict(c, total_debit),
    ;
}

/// Runs collateral auctions. Its refusals are its own: never one of the
/// treasury's errors.
pub trait AuctionManager {
    /// The auctions created so far, oldest first.
    spec fn auctions(&self) -> Seq<CollateralAuction>;

    /// Every auction asked for so far, oldest first, with the answer given.
    spec fn requests(&self) -> Seq<(CollateralAuction, DispatchResult)>;

    /// The collateral of type `c` locked in open auctions.
    spec fn collateral_in_auction(&self, c: CurrencyId) -> Balance;

    fn new_collateral_auction(&mut self, refund_recipient: AccountId, c: CurrencyId, amount: Balance, target: Balance) -> (r: DispatchResult)
        ensures
            r is Ok ==> final(self).auctions() == old(self).auctions().push(
                (CollateralAuction { refund_recipient, currency_id: c, amount, target }),
            ),
            r is Err ==> final(self).auctions() == old(self).auctions(),
            final(self).requests() == old(self).requests().push(
                ((CollateralAuction { refund_recipient, currency_id: c, amount, target }), r),
            ),
            !(r matches Err(DispatchError::Treasury(_))),
    ;

    fn get_total_collateral_in_auction(&self, c: CurrencyId) -> (r: Balance)
        ensures
            r == self.collateral_in_auction(c),
    ;

    fn get_total_target_in_auction(&self) -> Balance;
}

/// Swaps one currency for another along a path of pools. Its refusals are
/// its own: never one of the treasury's errors.
pub trait DexManager {
    /// The best path from `supply` to `target` within `limit`, if any.
    spec fn best_path(&self, supply: CurrencyId, target: CurrencyId, limit: SwapLimit, alternatives: Seq<Vec<CurrencyId>>) -> Option<Seq<CurrencyId>>;

    fn get_best_price_swap_path(
        &self,
        supply: CurrencyId,
        target: CurrencyId,
        limit: SwapLimit,
        alternatives: &Vec<Vec<CurrencyId>>,
    ) -> (r: Option<Vec<CurrencyId>>)
        ensures
            r is Some <==> self.best_path(supply, target, limit, alternatives@) is Some,
            r is Some ==> r->0@ == self.best_path(supply, target, limit, alternatives@)->0,
    ;

    /// What a swap for `who` along `path` within `limit` comes to, with the
    /// balances of `tokens`: the supply used and the target received, or
    /// the refusal.
    spec fn swap_outcome(&self, tokens: Tokens, who: AccountId, path: Seq<CurrencyId>, limit: SwapLimit) -> Result<(Balance, Balance), DispatchError>;

    /// What redeeming `share` of the pool of `c0` and `c1` for `who`, with
    /// at least `min_0` and `min_1` back, comes to with the balances of
    /// `tokens`.
    spec fn removal_outcome(
        &self,
        tokens: Tokens,
        who: AccountId,
        c0: CurrencyId,
        c1: CurrencyId,
        share: Balance,
        min_0: Balance,
        min_1: Balance,
    ) -> Result<(Balance, Balance), DispatchError>;

    fn swap_with_specific_path(&mut self, tokens: &mut Tokens, who: AccountId, path: &Vec<CurrencyId>, limit: SwapLimit) -> (r: Result<(Balance, Balance), DispatchError>)
        requires
            old(tokens).wf(),
        ensures
            final(tokens).wf(),
            r == old(self).swap_outcome(*old(tokens), who, path@, limit),
            r is Err ==> old(tokens).same_balances(final(tokens)),
            !(r matches Err(DispatchError::Treasury(_))),
    ;

    fn remove_liquidity(
        &mut self,
        tokens: &mut Tokens,
        who: AccountId,
        c0: CurrencyId,
        c1: CurrencyId,
        share: Balance,
        min_0: Balance,
        min_1: Balance,
    ) -> (r: Result<(Balance, Balance), DispatchError>)
        requires
            old(tokens).wf(),
        ensures
            final(tokens).wf(),
            r == old(self).removal_outcome(*old(tokens), who, c0, c1, share, min_0, min_1),
            r is Err ==> old(tokens).same_balances(final(tokens)),
            !(r matches Err(DispatchError::Treasury(_))),
    ;
}

/// The wider treasury that receives extracted surplus.
pub trait SerpTreasury {
    /// The surplus received so far, oldest first.
    spec fn received(&self) -> Seq<(CurrencyId, Balance)>;

    /// Whether `amount` of surplus in `c` is taken.
    spec fn serplus_verdict(&self, c: CurrencyId, amount: Balance) -> DispatchResult;

    fn on_serplus(&mut self, tokens: &mut Tokens, c: CurrencyId, amount: Balance) -> (r: DispatchResult)
        requires
            old(tokens).wf(),
        ensures
            final(tokens).wf(),
            r == old(self).serplus_verdict(c, amount),
            r is Ok ==> final(self).received() == old(self).received().push((c, amount)),
            r is Err ==> final(self).received() == old(self).received() && old(tokens).same_balances(final(tokens)),
    ;
}

} // verus!
