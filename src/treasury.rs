//! The treasury ledger: the system's surplus pool (stable currency held by
//! the treasury account), its debit pool of unbacked liability, the
//! collateral it holds, and the auctions and swaps that dispose of it.
use crate::auction_lots::{collateral_auction_lots, lot_spec, lots_count_spec};
use crate::ratio::{proportion, proportion_of, Ratio};
use crate::sums::{lemma_sum_push, lemma_sum_single, lemma_sum_update, lemma_sum_zero, sum_of};
use crate::tokens::{deposit_check, minted, transfer_check, transferred, withdraw_check, Tokens};
use crate::traits::{AuctionManager, CollateralAuction, DexManager, SerpTreasury};
use crate::types::{AccountId, ArithmeticError, Balance, CurrencyId, DispatchError, DispatchResult, Error, SwapLimit};
use vstd::prelude::*;

verus! {

#[derive(Clone, Copy)]
pub struct SizeRow {
    pub currency_id: CurrencyId,
    pub size: Balance,
}

pub open spec fn size_in(c: CurrencyId) -> spec_fn(SizeRow) -> int {
    |r: SizeRow| if r.currency_id == c { r.size as int } else { 0 }
}

pub open spec fn size_keys_unique(rows: Seq<SizeRow>) -> bool {
    forall|i: int, j: int|
        0 <= i < j < rows.len() ==> #[trigger] rows[i].currency_id != #[trigger] rows[j].currency_id
}

/// The size configured for `c` by a list of settings, the last one winning.
pub open spec fn configured_size(settings: Seq<(CurrencyId, Balance)>, c: CurrencyId) -> int
    decreases settings.len(),
{
    if settings.len() == 0 {
        0
    } else if settings.last().0 == c {
        settings.last().1 as int
    } else {
        configured_size(settings.drop_last(), c)
    }
}

/// What is left of `held` once `locked` is taken out, or nothing.
pub open spec fn not_in_auction(held: int, locked: int) -> int {
    if held >= locked { held - locked } else { 0 }
}

/// What adding `amount` to a debit pool of `debit` comes to.
pub open spec fn debit_check(debit: int, amount: int) -> DispatchResult {
    if debit + amount > u128::MAX {
        Err(DispatchError::Arithmetic(ArithmeticError::Overflow))
    } else {
        Ok(())
    }
}

/// What issuing `amount` of stable currency comes to.
pub open spec fn issue_check(debit: int, issuance: int, amount: int, backed: bool) -> DispatchResult {
    if !backed && debit + amount > u128::MAX {
        Err(DispatchError::Arithmetic(ArithmeticError::Overflow))
    } else {
        deposit_check(issuance, amount)
    }
}

/// The amount that the reconciliation offsets: the smaller pool.
pub open spec fn offset_amount(debit: int, surplus: int) -> int {
    if debit < surplus { debit } else { surplus }
}

/// `(t1, k1)` is `(t0, k0)` after one reconciliation: the offset amount is
/// burnt from the surplus pool and taken off the debit pool, unless it is
/// zero or the burn is refused, in which case nothing changes.
pub open spec fn offset_post(t0: &CdpTreasury, k0: &Tokens, t1: &CdpTreasury, k1: &Tokens) -> bool {
    let o = offset_amount(t0.debit() as int, t0.surplus(k0));
    if o != 0 && withdraw_check(t0.surplus(k0), o) is Ok {
        &&& t1.debit() == t0.debit() - o
        &&& minted(k0, k1, t0.stable(), t0.account(), -o)
    } else {
        &&& t1.debit() == t0.debit()
        &&& k0.same_balances(k1)
    }
}

/// The auctions made of `n` lots of `amount` collateral `c` and `target`.
pub open spec fn lot_auctions(refund_recipient: AccountId, c: CurrencyId, amount: int, target: int, n: int) -> Seq<CollateralAuction> {
    Seq::new(
        n as nat,
        |i: int|
            CollateralAuction {
                refund_recipient,
                currency_id: c,
                amount: lot_spec(amount, target, n, i).0 as u128,
                target: lot_spec(amount, target, n, i).1 as u128,
            },
    )
}

/// The requests in `after` beyond those already in `before`.
pub open spec fn requests_since(
    before: Seq<(CollateralAuction, DispatchResult)>,
    after: Seq<(CollateralAuction, DispatchResult)>,
) -> Seq<(CollateralAuction, DispatchResult)> {
    after.subrange(before.len() as int, after.len() as int)
}

/// `a1` is the auction manager `a0` after the treasury `t` was asked to
/// auction `amount` of collateral `c` for `target`, refunds to `refund`,
/// and answered `r`. Without enough free collateral the answer is
/// `CollateralNotEnough` and nothing is asked. Otherwise the planned lots
/// are asked for in order until one is refused: the answer is the manager's
/// last one (never a treasury error), `Ok` only when every lot was taken,
/// and the accepted lots are a prefix of the plan, all of it on success.
pub open spec fn auctions_post<A: AuctionManager>(
    t: &CdpTreasury,
    tokens: &Tokens,
    a0: &A,
    a1: &A,
    c: CurrencyId,
    amount: Balance,
    target: Balance,
    refund: AccountId,
    splited: bool,
    r: DispatchResult,
) -> bool {
    let n = lots_count_spec(amount as int, t.expected_size(c), t.max_auctions() as int, splited);
    let planned = lot_auctions(refund, c, amount as int, target as int, n);
    let asked = requests_since(a0.requests(), a1.requests());
    if amount > t.free_collateral(tokens, a0, c) {
        &&& r == Err::<(), DispatchError>(DispatchError::Treasury(Error::CollateralNotEnough))
        &&& a1.requests() == a0.requests()
        &&& a1.auctions() == a0.auctions()
    } else {
        &&& a1.requests().take(a0.requests().len() as int) == a0.requests()
        &&& 1 <= asked.len() <= n
        &&& forall|j: int| 0 <= j < asked.len() ==> (#[trigger] asked[j]).0 == planned[j]
        &&& forall|j: int| 0 <= j < asked.len() - 1 ==> (#[trigger] asked[j]).1 is Ok
        &&& r == asked.last().1
        &&& !(r matches Err(DispatchError::Treasury(_)))
        &&& r is Ok ==> asked.len() == n && a1.auctions() == a0.auctions() + planned
        &&& r is Err ==> a1.auctions() == a0.auctions() + planned.take(asked.len() - 1)
    }
}

/// Whether the treasury holds enough collateral for a swap of up to
/// `supply`: locked in auctions where `in_auction`, free otherwise.
pub open spec fn swap_collateral_enough(held: int, locked: int, supply: int, in_auction: bool) -> bool {
    if in_auction {
        held >= supply && locked >= supply
    } else {
        not_in_auction(held, locked) >= supply
    }
}

/// A notification of a change to the treasury's configuration.
#[derive(Clone, Copy, Debug, PartialEq, Eq, Structural)]
pub enum TreasuryEvent {
    ExpectedCollateralAuctionSizeUpdated { collateral_type: CurrencyId, new_size: Balance },
}

/// The treasury's state. Its balances live in the token ledger, under its
/// own account.
pub struct CdpTreasury {
    account_id: AccountId,
    stable_currency_id: CurrencyId,
    max_auctions_count: u32,
    debit_pool: Balance,
    expected_sizes: Vec<SizeRow>,
    alternative_swap_path_joint_list: Vec<Vec<CurrencyId>>,
    events: Vec<TreasuryEvent>,
}

impl CdpTreasury {
    pub closed spec fn wf(&self) -> bool {
        size_keys_unique(self.expected_sizes@)
    }

    /// The treasury's own account.
    pub closed spec fn account(&self) -> AccountId {
        self.account_id
    }

    /// The stable currency.
    pub closed spec fn stable(&self) -> CurrencyId {
        self.stable_currency_id
    }

    /// The cap on the number of lots of one collateral auction; zero for none.
    pub closed spec fn max_auctions(&self) -> u32 {
        self.max_auctions_count
    }

    /// The unbacked stable-currency liability of the system.
    pub closed spec fn debit(&self) -> Balance {
        self.debit_pool
    }

    /// The expected collateral per auction lot for `c`; zero for no splitting.
    pub closed spec fn expected_size(&self, c: CurrencyId) -> int {
        sum_of(self.expected_sizes@, size_in(c))
    }

    pub closed spec fn alternatives(&self) -> Seq<Vec<CurrencyId>> {
        self.alternative_swap_path_joint_list@
    }

    pub closed spec fn event_log(&self) -> Seq<TreasuryEvent> {
        self.events@
    }

    /// Everything but the debit pool unchanged.
    pub open spec fn same_config(&self, other: &CdpTreasury) -> bool {
        &&& other.wf() == self.wf()
        &&& other.account() == self.account()
        &&& other.stable() == self.stable()
        &&& other.max_auctions() == self.max_auctions()
        &&& forall|c: CurrencyId| #[trigger] other.expected_size(c) == self.expected_size(c)
        &&& other.alternatives() == self.alternatives()
        &&& other.event_log() == self.event_log()
    }

    /// The surplus pool as the token ledger holds it.
    pub open spec fn surplus(&self, tokens: &Tokens) -> int {
        tokens.free(self.stable(), self.account())
    }

    /// A treasury with an empty debit pool, holding its balances under
    /// `account_id`, with the expected lot sizes of `expected_sizes` (where a
    /// currency occurs twice, the later size counts).
    pub fn new(
        account_id: AccountId,
        stable_currency_id: CurrencyId,
        max_auctions_count: u32,
        alternative_swap_path_joint_list: Vec<Vec<CurrencyId>>,
        expected_sizes: &Vec<(CurrencyId, Balance)>,
    ) -> (r: CdpTreasury)
        ensures
            r.wf(),
            r.account() == account_id,
            r.stable() == stable_currency_id,
            r.max_auctions() == max_auctions_count,
            r.debit() == 0,
            r.alternatives() == alternative_swap_path_joint_list@,
            r.event_log() == Seq::<TreasuryEvent>::empty(),
            forall|c: CurrencyId| #[trigger] r.expected_size(c) == configured_size(expected_sizes@, c),
    {
        let mut r = CdpTreasury {
            account_id,
            stable_currency_id,
            max_auctions_count,
            debit_pool: 0,
            expected_sizes: Vec::new(),
            alternative_swap_path_joint_list,
            events: Vec::new(),
        };
        let mut i: usize = 0;
        while i < expected_sizes.len()
            invariant
                i <= expected_sizes@.len(),
                r.wf(),
                r.account() == account_id,
                r.stable() == stable_currency_id,
                r.max_auctions() == max_auctions_count,
                r.debit() == 0,
                r.alternatives() == alternative_swap_path_joint_list@,
                r.event_log() == Seq::<TreasuryEvent>::empty(),
                forall|c: CurrencyId| #[trigger] r.expected_size(c) == configured_size(expected_sizes@.take(i as int), c),
            decreases expected_sizes.len() - i,
        {
            let (c, size) = expected_sizes[i];
            r.write_expected_size(c, size);
            proof {
                let t = expected_sizes@.take(i + 1);
                assert(t.drop_last() =~= expected_sizes@.take(i as int));
                assert(t.last() == (c, size));
            }
            i = i + 1;
        }
        assert(expected_sizes@.take(expected_sizes.len() as int) =~= expected_sizes@);
        r
    }

    pub fn account_id(&self) -> (r: AccountId)
        ensures
            r == self.account(),
    {
        self.account_id
    }

    pub fn stable_currency_id(&self) -> (r: CurrencyId)
        ensures
            r == self.stable(),
    {
        self.stable_currency_id
    }

    pub fn max_auction(&self) -> (r: u32)
        ensures
            r == self.max_auctions(),
    {
        self.max_auctions_count
    }

    pub fn debit_pool(&self) -> (r: Balance)
        ensures
            r == self.debit(),
    {
        self.debit_pool
    }

    /// Puts the debit pool back to `v`, undoing a step of a compound
    /// operation that failed later.
    pub(crate) fn restore_debit_pool(&mut self, v: Balance)
        ensures
            old(self).same_config(final(self)),
            final(self).debit() == v,
    {
        self.debit_pool = v;
    }

    proof fn lemma_size_of_row(&self, i: int)
        requires
            self.wf(),
            0 <= i < self.expected_sizes@.len(),
        ensures
            self.expected_size(self.expected_sizes@[i].currency_id) == self.expected_sizes@[i].size,
    {
        let f = size_in(self.expected_sizes@[i].currency_id);
        assert forall|j: int| 0 <= j < self.expected_sizes@.len() && j != i implies f(
            #[trigger] self.expected_sizes@[j],
        ) == 0 by {
            if j < i {
                assert(self.expected_sizes@[j].currency_id != self.expected_sizes@[i].currency_id);
            } else {
                assert(self.expected_sizes@[i].currency_id != self.expected_sizes@[j].currency_id);
            }
        }
        lemma_sum_single(self.expected_sizes@, i, f);
    }

    fn find_size(&self, c: CurrencyId) -> (r: Option<usize>)
        ensures
            match r {
                Some(i) => i < self.expected_sizes@.len() && self.expected_sizes@[i as int].currency_id == c,
                None => forall|j: int| 0 <= j < self.expected_sizes@.len() ==> #[trigger] self.expected_sizes@[j].currency_id != c,
            },
    {
        let mut i: usize = 0;
        while i < self.expected_sizes.len()
            invariant
                i <= self.expected_sizes@.len(),
                forall|j: int| 0 <= j < i ==> #[trigger] self.expected_sizes@[j].currency_id != c,
            decreases self.expected_sizes.len() - i,
        {
            if self.expected_sizes[i].currency_id == c {
                return Some(i);
            }
            i = i + 1;
        }
        None
    }

    /// The expected collateral per auction lot for `c`.
    pub fn expected_collateral_auction_size(&self, c: CurrencyId) -> (r: Balance)
        requires
            self.wf(),
        ensures
            r == self.expected_size(c),
    {
        match self.find_size(c) {
            Some(i) => {
                proof {
                    self.lemma_size_of_row(i as int);
                }
                self.expected_sizes[i].size
            },
            None => {
                proof {
                    lemma_sum_zero(self.expected_sizes@, size_in(c));
                }
                0
            },
        }
    }

    /// Sets the expected collateral per auction lot for `c`, and says so.
    pub fn set_expected_collateral_auction_size(&mut self, c: CurrencyId, size: Balance)
        requires
            old(self).wf(),
        ensures
            final(self).wf(),
            final(self).expected_size(c) == size,
            forall|c2: CurrencyId| c2 != c ==> #[trigger] final(self).expected_size(c2) == old(self).expected_size(c2),
            final(self).account() == old(self).account(),
            final(self).stable() == old(self).stable(),
            final(self).max_auctions() == old(self).max_auctions(),
            final(self).debit() == old(self).debit(),
            final(self).alternatives() == old(self).alternatives(),
            final(self).event_log() == old(self).event_log().push(
                TreasuryEvent::ExpectedCollateralAuctionSizeUpdated { collateral_type: c, new_size: size },
            ),
    {
        self.write_expected_size(c, size);
        let ghost written = *self;
        self.events.push(TreasuryEvent::ExpectedCollateralAuctionSizeUpdated { collateral_type: c, new_size: size });
        assert(forall|c2: CurrencyId| #[trigger] self.expected_size(c2) == written.expected_size(c2));
    }

    /// The most recent notification, if any.
    pub fn last_event(&self) -> (r: Option<TreasuryEvent>)
        ensures
            self.event_log().len() == 0 ==> r is None,
            self.event_log().len() > 0 ==> r == Some(self.event_log().last()),
    {
        if self.events.len() == 0 {
            None
        } else {
            Some(self.events[self.events.len() - 1])
        }
    }

    fn write_expected_size(&mut self, c: CurrencyId, size: Balance)
        requires
            old(self).wf(),
        ensures
            final(self).wf(),
            final(self).expected_size(c) == size,
            forall|c2: CurrencyId| c2 != c ==> #[trigger] final(self).expected_size(c2) == old(self).expected_size(c2),
            final(self).account() == old(self).account(),
            final(self).stable() == old(self).stable(),
            final(self).max_auctions() == old(self).max_auctions(),
            final(self).debit() == old(self).debit(),
            final(self).alternatives() == old(self).alternatives(),
            final(self).event_log() == old(self).event_log(),
    {
        let row = SizeRow { currency_id: c, size };
        let ghost s = self.expected_sizes@;
        match self.find_size(c) {
            Some(i) => {
                proof {
                    self.lemma_size_of_row(i as int);
                }
                self.expected_sizes.set(i, row);
                proof {
                    assert(self.expected_sizes@ == s.update(i as int, row));
                    assert forall|c2: CurrencyId| true implies #[trigger] self.expected_size(c2)
                        == sum_of(s, size_in(c2)) - size_in(c2)(s[i as int]) + size_in(c2)(row) by {
                        lemma_sum_update(s, i as int, row, size_in(c2));
                    }
                }
            },
            None => {
                proof {
                    lemma_sum_zero(s, size_in(c));
                }
                self.expected_sizes.push(row);
                proof {
                    assert forall|c2: CurrencyId| true implies #[trigger] self.expected_size(c2)
                        == sum_of(s, size_in(c2)) + size_in(c2)(row) by {
                        lemma_sum_push(s, row, size_in(c2));
                    }
                }
            },
        }
    }

    /// The treasury's stable balance: the surplus pool.
    pub fn surplus_pool(&self, tokens: &Tokens) -> (r: Balance)
        requires
            tokens.wf(),
        ensures
            r == self.surplus(tokens),
    {
        tokens.free_balance(self.stable_currency_id, self.account_id)
    }

    /// The collateral of type `c` that the treasury holds.
    pub fn total_collaterals(&self, tokens: &Tokens, c: CurrencyId) -> (r: Balance)
        requires
            tokens.wf(),
        ensures
            r == tokens.free(c, self.account()),
    {
        tokens.free_balance(c, self.account_id)
    }

    /// The collateral of type `c` that the treasury holds and that no open
    /// auction has taken.
    pub fn total_collaterals_not_in_auction<A: AuctionManager>(&self, tokens: &Tokens, auctions: &A, c: CurrencyId) -> (r: Balance)
        requires
            tokens.wf(),
        ensures
            r == not_in_auction(tokens.free(c, self.account()), auctions.collateral_in_auction(c) as int),
    {
        let held = tokens.free_balance(c, self.account_id);
        let locked = auctions.get_total_collateral_in_auction(c);
        if held >= locked {
            held - locked
        } else {
            0
        }
    }

    /// `amount` as a proportion of the stable currency's total issuance;
    /// zero where nothing is issued.
    pub fn get_debit_proportion(&self, tokens: &Tokens, amount: Balance) -> (r: Ratio)
        requires
            tokens.wf(),
        ensures
            r.inner == proportion(amount as int, tokens.issuance(self.stable())),
    {
        let issued = tokens.total_issuance(self.stable_currency_id);
        proportion_of(amount, issued)
    }

    /// Adds `amount` to the debit pool.
    pub fn on_system_debit(&mut self, amount: Balance) -> (r: DispatchResult)
        ensures
            old(self).same_config(final(self)),
            r == debit_check(old(self).debit() as int, amount as int),
            r is Ok ==> final(self).debit() == old(self).debit() + amount,
            r is Err ==> final(self).debit() == old(self).debit(),
    {
        if self.debit_pool > u128::MAX - amount {
            return Err(DispatchError::Arithmetic(ArithmeticError::Overflow));
        }
        self.debit_pool = self.debit_pool + amount;
        Ok(())
    }

    /// Mints `amount` of stable currency to `who`; where it is not backed
    /// by collateral, the debit pool takes it on first.
    pub fn issue_debit(&mut self, tokens: &mut Tokens, who: AccountId, amount: Balance, backed: bool) -> (r: DispatchResult)
        requires
            old(tokens).wf(),
        ensures
            final(tokens).wf(),
            old(self).same_config(final(self)),
            r == issue_check(old(self).debit() as int, old(tokens).issuance(old(self).stable()), amount as int, backed),
            r is Ok ==> minted(old(tokens), final(tokens), old(self).stable(), who, amount as int)
                && final(self).debit() == old(self).debit() + if backed { 0 } else { amount as int },
            r is Err ==> old(tokens).same_balances(final(tokens)) && final(self).debit() == old(self).debit(),
    {
        let saved = self.debit_pool;
        if !backed {
            if let Err(e) = self.on_system_debit(amount) {
                return Err(e);
            }
        }
        match tokens.deposit(self.stable_currency_id, who, amount) {
            Ok(()) => Ok(()),
            Err(e) => {
                self.restore_debit_pool(saved);
                Err(e)
            },
        }
    }

    /// Mints `amount` of stable currency into the treasury account.
    pub fn on_system_surplus(&mut self, tokens: &mut Tokens, amount: Balance) -> (r: DispatchResult)
        requires
            old(tokens).wf(),
        ensures
            final(tokens).wf(),
            old(self).same_config(final(self)),
            final(self).debit() == old(self).debit(),
            r == deposit_check(old(tokens).issuance(old(self).stable()), amount as int),
            r is Ok ==> minted(old(tokens), final(tokens), old(self).stable(), old(self).account(), amount as int),
            r is Err ==> old(tokens).same_balances(final(tokens)),
    {
        let account = self.account_id;
        self.issue_debit(tokens, account, amount, true)
    }

    /// Burns `amount` of stable currency held by `who`.
    pub fn burn_debit(&self, tokens: &mut Tokens, who: AccountId, amount: Balance) -> (r: DispatchResult)
        requires
            old(tokens).wf(),
        ensures
            final(tokens).wf(),
            r == withdraw_check(old(tokens).free(self.stable(), who), amount as int),
            r is Ok ==> minted(old(tokens), final(tokens), self.stable(), who, -(amount as int)),
            r is Err ==> old(tokens).same_balances(final(tokens)),
    {
        tokens.withdraw(self.stable_currency_id, who, amount)
    }

    /// Moves `amount` of stable currency from `from` into the surplus pool.
    pub fn deposit_surplus(&self, tokens: &mut Tokens, from: AccountId, amount: Balance) -> (r: DispatchResult)
        requires
            old(tokens).wf(),
        ensures
            final(tokens).wf(),
            r == transfer_check(
                old(tokens).free(self.stable(), from),
                old(tokens).free(self.stable(), self.account()),
                amount as int,
                old(tokens).ed(),
                from == self.account(),
            ),
            r is Ok ==> transferred(old(tokens), final(tokens), self.stable(), from, self.account(), amount as int),
            r is Err ==> old(tokens).same_balances(final(tokens)),
    {
        tokens.transfer(self.stable_currency_id, from, self.account_id, amount)
    }

    /// Moves `amount` of collateral `c` from `from` into the treasury.
    pub fn deposit_collateral(&self, tokens: &mut Tokens, from: AccountId, c: CurrencyId, amount: Balance) -> (r: DispatchResult)
        requires
            old(tokens).wf(),
        ensures
            final(tokens).wf(),
            r == transfer_check(
                old(tokens).free(c, from),
                old(tokens).free(c, self.account()),
                amount as int,
                old(tokens).ed(),
                from == self.account(),
            ),
            r is Ok ==> transferred(old(tokens), final(tokens), c, from, self.account(), amount as int),
            r is Err ==> old(tokens).same_balances(final(tokens)),
    {
        tokens.transfer(c, from, self.account_id, amount)
    }

    /// Moves `amount` of collateral `c` out of the treasury to `to`.
    pub fn withdraw_collateral(&self, tokens: &mut Tokens, to: AccountId, c: CurrencyId, amount: Balance) -> (r: DispatchResult)
        requires
            old(tokens).wf(),
        ensures
            final(tokens).wf(),
            r == transfer_check(
                old(tokens).free(c, self.account()),
                old(tokens).free(c, to),
                amount as int,
                old(tokens).ed(),
                to == self.account(),
            ),
            r is Ok ==> transferred(old(tokens), final(tokens), c, self.account(), to, amount as int),
            r is Err ==> old(tokens).same_balances(final(tokens)),
    {
        tokens.transfer(c, self.account_id, to, amount)
    }

    /// Cancels as much of the debit pool against the surplus pool as both
    /// allow, burning that much stable currency from the treasury. A failed
    /// burn leaves everything as it was, to be retried next period.
    pub fn offset_surplus_and_debit(&mut self, tokens: &mut Tokens)
        requires
            old(tokens).wf(),
        ensures
            final(tokens).wf(),
            old(self).same_config(final(self)),
            offset_post(old(self), old(tokens), final(self), final(tokens)),
    {
        let surplus = tokens.free_balance(self.stable_currency_id, self.account_id);
        let offset = if self.debit_pool < surplus { self.debit_pool } else { surplus };
        if offset != 0 {
            match tokens.withdraw(self.stable_currency_id, self.account_id, offset) {
                Ok(()) => {
                    self.debit_pool = self.debit_pool - offset;
                },
                Err(_) => {},
            }
        }
    }

    /// The collateral of type `c` that may go into a new auction or swap.
    pub open spec fn free_collateral<A: AuctionManager>(&self, tokens: &Tokens, auctions: &A, c: CurrencyId) -> int {
        not_in_auction(tokens.free(c, self.account()), auctions.collateral_in_auction(c) as int)
    }

    /// Offers `amount` of the treasury's collateral `c`, expected to fetch
    /// `target`, in one or more auctions whose refunds go to
    /// `refund_receiver`. Where `splited` is set the collateral is cut into
    /// lots of about the expected size, at most the cap on auctions. The
    /// lots are asked for in order until the auction manager refuses one.
    pub fn create_collateral_auctions<A: AuctionManager>(
        &self,
        tokens: &Tokens,
        auctions: &mut A,
        c: CurrencyId,
        amount: Balance,
        target: Balance,
        refund_receiver: AccountId,
        splited: bool,
    ) -> (r: DispatchResult)
        requires
            self.wf(),
            tokens.wf(),
        ensures
            auctions_post(self, tokens, old(auctions), final(auctions), c, amount, target, refund_receiver, splited, r),
    {
        let free = self.total_collaterals_not_in_auction(tokens, auctions, c);
        if free < amount {
            return Err(DispatchError::Treasury(Error::CollateralNotEnough));
        }
        let size = self.expected_collateral_auction_size(c);
        let lots = collateral_auction_lots(amount, target, size, self.max_auctions_count, splited);
        let ghost n = lots_count_spec(amount as int, size as int, self.max_auctions_count as int, splited);
        let ghost planned = lot_auctions(refund_receiver, c, amount as int, target as int, n);
        let ghost start = auctions.auctions();
        let ghost asked = auctions.requests();
        proof {
            crate::auction_lots::lemma_lots_conserve(amount, target, size, self.max_auctions_count, splited);
        }
        let mut last: DispatchResult = Ok(());
        let mut i: usize = 0;
        while i < lots.len()
            invariant
                i <= lots@.len(),
                lots@.len() == n,
                n >= 1,
                planned == lot_auctions(refund_receiver, c, amount as int, target as int, n),
                n == lots_count_spec(amount as int, self.expected_size(c), self.max_auctions() as int, splited),
                forall|j: int| 0 <= j < n ==> (#[trigger] lots@[j]).0 as int == lot_spec(amount as int, target as int, n, j).0
                    && lots@[j].1 as int == lot_spec(amount as int, target as int, n, j).1,
                auctions.auctions() == start + planned.take(i as int),
                start == old(auctions).auctions(),
                asked == old(auctions).requests(),
                auctions.requests().len() == asked.len() + i,
                auctions.requests().take(asked.len() as int) == asked,
                forall|j: int| 0 <= j < i ==> (#[trigger] requests_since(asked, auctions.requests())[j]).0 == planned[j]
                    && requests_since(asked, auctions.requests())[j].1 is Ok,
                i > 0 ==> last == auctions.requests().last().1,
                amount <= self.free_collateral(tokens, old(auctions), c),
            decreases lots.len() - i,
        {
            let (lot_amount, lot_target) = lots[i];
            let ghost before = auctions.requests();
            proof {
                let l = lots@[i as int];
                assert(l.0 as int == lot_spec(amount as int, target as int, n, i as int).0);
                assert(l.1 as int == lot_spec(amount as int, target as int, n, i as int).1);
                assert(planned[i as int] == CollateralAuction {
                    refund_recipient: refund_receiver,
                    currency_id: c,
                    amount: lot_amount,
                    target: lot_target,
                });
            }
            let res = auctions.new_collateral_auction(refund_receiver, c, lot_amount, lot_target);
            proof {
                let now = auctions.requests();
                assert(now.take(asked.len() as int) =~= asked) by {
                    assert(before.take(asked.len() as int) == asked);
                }
                assert forall|j: int| 0 <= j <= i implies (#[trigger] requests_since(asked, now)[j]).0 == planned[j] by {
                    if j < i {
                        assert(requests_since(asked, now)[j] == requests_since(asked, before)[j]);
                    }
                }
                assert forall|j: int| 0 <= j < i implies (#[trigger] requests_since(asked, now)[j]).1 is Ok by {
                    assert(requests_since(asked, now)[j] == requests_since(asked, before)[j]);
                }
            }
            if res.is_err() {
                proof {
                    // the lots before this one stay with the auction manager
                    assert(0 <= i < n && auctions.auctions() == old(auctions).auctions() + lot_auctions(
                        refund_receiver,
                        c,
                        amount as int,
                        target as int,
                        n,
                    ).take(i as int));
                }
                return res;
            }
            proof {
                assert(planned.take(i + 1) =~= planned.take(i as int).push(planned[i as int]));
                assert(start + planned.take(i + 1) =~= (start + planned.take(i as int)).push(planned[i as int]));
            }
            last = res;
            i = i + 1;
        }
        assert(planned.take(n) =~= planned);
        last
    }

    /// Offers `amount` of the treasury's collateral `c` at auction, refunds
    /// going to the treasury itself.
    pub fn auction_collateral<A: AuctionManager>(
        &self,
        tokens: &Tokens,
        auctions: &mut A,
        c: CurrencyId,
        amount: Balance,
        target: Balance,
        splited: bool,
    ) -> (r: DispatchResult)
        requires
            self.wf(),
            tokens.wf(),
        ensures
            auctions_post(self, tokens, old(auctions), final(auctions), c, amount, target, self.account(), splited, r),
    {
        self.create_collateral_auctions(tokens, auctions, c, amount, target, self.account_id, splited)
    }

    /// Swaps treasury collateral `c` for stable currency within `limit`,
    /// taking collateral already locked in auctions when
    /// `collateral_in_auction` is set and free collateral otherwise.
    pub fn swap_collateral_to_stable<A: AuctionManager, D: DexManager>(
        &self,
        tokens: &mut Tokens,
        auctions: &A,
        dex: &mut D,
        c: CurrencyId,
        limit: SwapLimit,
        collateral_in_auction: bool,
    ) -> (r: Result<(Balance, Balance), DispatchError>)
        requires
            old(tokens).wf(),
        ensures
            final(tokens).wf(),
            !swap_collateral_enough(
                old(tokens).free(c, self.account()),
                auctions.collateral_in_auction(c) as int,
                limit.supply_limit_spec() as int,
                collateral_in_auction,
            ) ==> r == Err::<(Balance, Balance), DispatchError>(DispatchError::Treasury(Error::CollateralNotEnough))
                && old(tokens).same_balances(final(tokens)) && *final(dex) == *old(dex),
            swap_collateral_enough(
                old(tokens).free(c, self.account()),
                auctions.collateral_in_auction(c) as int,
                limit.supply_limit_spec() as int,
                collateral_in_auction,
            ) && old(dex).best_path(c, self.stable(), limit, self.alternatives()) is None
                ==> r == Err::<(Balance, Balance), DispatchError>(DispatchError::Treasury(Error::CannotSwap))
                && old(tokens).same_balances(final(tokens)) && *final(dex) == *old(dex),
            swap_collateral_enough(
                old(tokens).free(c, self.account()),
                auctions.collateral_in_auction(c) as int,
                limit.supply_limit_spec() as int,
                collateral_in_auction,
            ) && old(dex).best_path(c, self.stable(), limit, self.alternatives()) is Some
                ==> r == old(dex).swap_outcome(
                *old(tokens),
                self.account(),
                old(dex).best_path(c, self.stable(), limit, self.alternatives())->0,
                limit,
            ) && !(r matches Err(DispatchError::Treasury(_))),
            r is Err ==> old(tokens).same_balances(final(tokens)),
    {
        let supply_limit = limit.supply_limit();
        let held = tokens.free_balance(c, self.account_id);
        let locked = auctions.get_total_collateral_in_auction(c);
        let enough = if collateral_in_auction {
            held >= supply_limit && locked >= supply_limit
        } else {
            let free = if held >= locked { held - locked } else { 0 };
            free >= supply_limit
        };
        if !enough {
            return Err(DispatchError::Treasury(Error::CollateralNotEnough));
        }
        let path = dex.get_best_price_swap_path(c, self.stable_currency_id, limit, &self.alternative_swap_path_joint_list);
        match path {
            None => Err(DispatchError::Treasury(Error::CannotSwap)),
            Some(p) => dex.swap_with_specific_path(tokens, self.account_id, &p, limit),
        }
    }

    /// Swaps free treasury collateral `c` for stable currency within `limit`.
    pub fn exchange_collateral_to_stable<A: AuctionManager, D: DexManager>(
        &self,
        tokens: &mut Tokens,
        auctions: &A,
        dex: &mut D,
        c: CurrencyId,
        limit: SwapLimit,
    ) -> (r: DispatchResult)
        requires
            old(tokens).wf(),
        ensures
            final(tokens).wf(),
            !swap_collateral_enough(
                old(tokens).free(c, self.account()),
                auctions.collateral_in_auction(c) as int,
                limit.supply_limit_spec() as int,
                false,
            ) ==> r == Err::<(), DispatchError>(DispatchError::Treasury(Error::CollateralNotEnough))
                && old(tokens).same_balances(final(tokens)) && *final(dex) == *old(dex),
            swap_collateral_enough(
                old(tokens).free(c, self.account()),
                auctions.collateral_in_auction(c) as int,
                limit.supply_limit_spec() as int,
                false,
            ) && old(dex).best_path(c, self.stable(), limit, self.alternatives()) is None
                ==> r == Err::<(), DispatchError>(DispatchError::Treasury(Error::CannotSwap))
                && old(tokens).same_balances(final(tokens)) && *final(dex) == *old(dex),
            swap_collateral_enough(
                old(tokens).free(c, self.account()),
                auctions.collateral_in_auction(c) as int,
                limit.supply_limit_spec() as int,
                false,
            ) && old(dex).best_path(c, self.stable(), limit, self.alternatives()) is Some
                ==> r == match old(dex).swap_outcome(
                *old(tokens),
                self.account(),
                old(dex).best_path(c, self.stable(), limit, self.alternatives())->0,
                limit,
            ) {
                Ok(_) => Ok::<(), DispatchError>(()),
                Err(e) => Err(e),
            } && !(r matches Err(DispatchError::Treasury(_))),
            r is Err ==> old(tokens).same_balances(final(tokens)),
    {
        match self.swap_collateral_to_stable(tokens, auctions, dex, c, limit, false) {
            Ok(_) => Ok(()),
            Err(e) => Err(e),
        }
    }

    /// Redeems `amount` of the liquidity-pool share `lp` held by the
    /// treasury for its two underlying tokens.
    pub fn remove_liquidity_for_lp_collateral<D: DexManager>(
        &self,
        tokens: &mut Tokens,
        dex: &mut D,
        lp: CurrencyId,
        amount: Balance,
    ) -> (r: Result<(Balance, Balance), DispatchError>)
        requires
            old(tokens).wf(),
        ensures
            final(tokens).wf(),
            lp is Token ==> r == Err::<(Balance, Balance), DispatchError>(DispatchError::Treasury(Error::NotDexShare))
                && old(tokens).same_balances(final(tokens)) && *final(dex) == *old(dex),
            lp matches CurrencyId::DexShare(a, b) ==> r == old(dex).removal_outcome(
                *old(tokens),
                self.account(),
                CurrencyId::Token(a),
                CurrencyId::Token(b),
                amount,
                0,
                0,
            ) && !(r matches Err(DispatchError::Treasury(_))),
            r is Err ==> old(tokens).same_balances(final(tokens)),
    {
        match lp.split_dex_share_currency_id() {
            None => Err(DispatchError::Treasury(Error::NotDexShare)),
            Some((c0, c1)) => dex.remove_liquidity(tokens, self.account_id, c0, c1, amount, 0, 0),
        }
    }

    /// Hands `amount` of surplus stable currency to the wider treasury.
    pub fn extract_surplus_to_serp<S: SerpTreasury>(&self, tokens: &mut Tokens, serp: &mut S, amount: Balance) -> (r: DispatchResult)
        requires
            old(tokens).wf(),
        ensures
            final(tokens).wf(),
            r == old(serp).serplus_verdict(self.stable(), amount),
            r is Ok ==> final(serp).received() == old(serp).received().push((self.stable(), amount)),
            r is Err ==> final(serp).received() == old(serp).received() && old(tokens).same_balances(final(tokens)),
    {
        serp.on_serplus(tokens, self.stable_currency_id, amount)
    }
}

/// Neither the debit pool nor the surplus pool is ever below zero.
pub proof fn lemma_pools_not_negative(t: &CdpTreasury, k: &Tokens)
    ensures
        t.debit() >= 0,
        t.surplus(k) >= 0,
{
    k.lemma_free_nonneg(t.stable(), t.account());
}

/// Reconciling when the debit pool or the surplus pool is empty changes
/// nothing.
pub proof fn lemma_offset_noop_when_a_pool_is_empty(t0: &CdpTreasury, k0: &Tokens, t1: &CdpTreasury, k1: &Tokens)
    requires
        offset_post(t0, k0, t1, k1),
        t0.debit() == 0 || t0.surplus(k0) == 0,
    ensures
        t1.debit() == t0.debit(),
        k0.same_balances(k1),
{
    k0.lemma_free_nonneg(t0.stable(), t0.account());
}

/// Reconciling twice in a row, with nothing in between, comes to the same
/// as reconciling once.
pub proof fn lemma_offset_idempotent(
    t0: &CdpTreasury,
    k0: &Tokens,
    t1: &CdpTreasury,
    k1: &Tokens,
    t2: &CdpTreasury,
    k2: &Tokens,
)
    requires
        t0.same_config(t1),
        offset_post(t0, k0, t1, k1),
        offset_post(t1, k1, t2, k2),
    ensures
        t2.debit() == t1.debit(),
        k1.same_balances(k2),
{
    let s0 = t0.surplus(k0);
    let s1 = t1.surplus(k1);
    k0.lemma_free_nonneg(t0.stable(), t0.account());
    let o = offset_amount(t0.debit() as int, s0);
    if o != 0 && withdraw_check(s0, o) is Ok {
        assert(s1 == s0 - o);
        assert(offset_amount(t1.debit() as int, s1) == 0);
    } else {
        assert(s1 == s0);
        assert(k1.issuance(t1.stable()) == k0.issuance(t0.stable()));
    }
}

} // verus!
