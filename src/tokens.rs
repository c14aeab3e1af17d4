//! The multi-currency balance ledger: free balances per (currency, account),
//! total issuance per currency, transfers, minting and burning.
use crate::sums::{copy_rows, lemma_sum_add, lemma_sum_le, lemma_sum_nonneg, lemma_sum_push, lemma_sum_single, lemma_sum_update, lemma_sum_zero, sum_of};
use crate::types::{AccountId, ArithmeticError, Balance, CurrencyId, DispatchError, DispatchResult, TokenError};
use vstd::prelude::*;

verus! {

#[derive(Clone, Copy)]
pub struct BalanceRow {
    pub currency_id: CurrencyId,
    pub who: AccountId,
    pub free: Balance,
}

#[derive(Clone, Copy)]
pub struct IssuanceRow {
    pub currency_id: CurrencyId,
    pub total: Balance,
}

pub open spec fn free_at(c: CurrencyId, who: AccountId) -> spec_fn(BalanceRow) -> int {
    |r: BalanceRow| if r.currency_id == c && r.who == who { r.free as int } else { 0 }
}

pub open spec fn free_in(c: CurrencyId) -> spec_fn(BalanceRow) -> int {
    |r: BalanceRow| if r.currency_id == c { r.free as int } else { 0 }
}

pub open spec fn issued_in(c: CurrencyId) -> spec_fn(IssuanceRow) -> int {
    |r: IssuanceRow| if r.currency_id == c { r.total as int } else { 0 }
}

/// At most one row per (currency, account).
pub open spec fn balance_keys_unique(rows: Seq<BalanceRow>) -> bool {
    forall|i: int, j: int|
        0 <= i < j < rows.len() ==> !(#[trigger] rows[i].currency_id == #[trigger] rows[j].currency_id
            && rows[i].who == rows[j].who)
}

/// At most one row per currency.
pub open spec fn issuance_keys_unique(rows: Seq<IssuanceRow>) -> bool {
    forall|i: int, j: int|
        0 <= i < j < rows.len() ==> #[trigger] rows[i].currency_id != #[trigger] rows[j].currency_id
}

/// What a transfer of `amount` from an account holding `from_free` to one
/// holding `to_free` comes to.
pub open spec fn transfer_check(from_free: int, to_free: int, amount: int, ed: int, same_account: bool) -> DispatchResult {
    if amount == 0 || same_account {
        Ok(())
    } else if from_free < amount {
        Err(DispatchError::Token(TokenError::BalanceTooLow))
    } else if to_free + amount < ed {
        Err(DispatchError::Token(TokenError::ExistentialDeposit))
    } else {
        Ok(())
    }
}

/// What minting `amount` of a currency of total issuance `issuance` comes to.
pub open spec fn deposit_check(issuance: int, amount: int) -> DispatchResult {
    if amount == 0 {
        Ok(())
    } else if issuance + amount > u128::MAX {
        Err(DispatchError::Arithmetic(ArithmeticError::Overflow))
    } else {
        Ok(())
    }
}

/// What burning `amount` from an account holding `free` comes to.
pub open spec fn withdraw_check(free: int, amount: int) -> DispatchResult {
    if amount == 0 {
        Ok(())
    } else if free < amount {
        Err(DispatchError::Token(TokenError::BalanceTooLow))
    } else {
        Ok(())
    }
}

/// How a transfer of `amount` of `c` from `from` to `to` changes the free
/// balance of `w2` in `c2`.
pub open spec fn transfer_delta(c: CurrencyId, from: AccountId, to: AccountId, amount: int, c2: CurrencyId, w2: AccountId) -> int {
    if c2 != c || from == to {
        0
    } else if w2 == to {
        amount
    } else if w2 == from {
        -amount
    } else {
        0
    }
}

/// `new` is `old` after `amount` of `c` went from `from` to `to`.
pub open spec fn transferred(old: &Tokens, new: &Tokens, c: CurrencyId, from: AccountId, to: AccountId, amount: int) -> bool {
    &&& forall|c2: CurrencyId, w2: AccountId| #[trigger] new.free(c2, w2)
        == old.free(c2, w2) + transfer_delta(c, from, to, amount, c2, w2)
    &&& forall|c2: CurrencyId| #[trigger] new.issuance(c2) == old.issuance(c2)
    &&& new.ed() == old.ed()
}

/// `new` is `old` after `amount` of `c` was minted into `who`'s balance
/// (burnt from it, where `amount` is negative).
pub open spec fn minted(old: &Tokens, new: &Tokens, c: CurrencyId, who: AccountId, amount: int) -> bool {
    &&& forall|c2: CurrencyId, w2: AccountId| #[trigger] new.free(c2, w2)
        == old.free(c2, w2) + if c2 == c && w2 == who { amount } else { 0 }
    &&& forall|c2: CurrencyId| #[trigger] new.issuance(c2) == old.issuance(c2) + if c2 == c { amount } else { 0 }
    &&& new.ed() == old.ed()
}

/// Free balances of every currency for every account, with the total
/// issuance of each currency. A transfer never leaves its receiver holding
/// less than the existential deposit.
pub struct Tokens {
    balances: Vec<BalanceRow>,
    issuance: Vec<IssuanceRow>,
    existential_deposit: Balance,
}

impl Tokens {
    closed spec fn keys_ok(&self) -> bool {
        &&& balance_keys_unique(self.balances@)
        &&& issuance_keys_unique(self.issuance@)
    }

    /// The sum of all balances in currency `c`.
    pub closed spec fn held(&self, c: CurrencyId) -> int {
        sum_of(self.balances@, free_in(c))
    }

    /// Each currency's total issuance is the sum of its balances.
    pub closed spec fn wf(&self) -> bool {
        &&& self.keys_ok()
        &&& forall|c: CurrencyId| #[trigger] self.issuance(c) == self.held(c)
    }

    /// The free balance of `who` in currency `c`.
    pub closed spec fn free(&self, c: CurrencyId, who: AccountId) -> int {
        sum_of(self.balances@, free_at(c, who))
    }

    /// The total issuance of currency `c`.
    pub closed spec fn issuance(&self, c: CurrencyId) -> int {
        sum_of(self.issuance@, issued_in(c))
    }

    pub closed spec fn ed(&self) -> int {
        self.existential_deposit as int
    }

    /// Every balance and issuance unchanged.
    pub open spec fn same_balances(&self, other: &Tokens) -> bool {
        &&& forall|c: CurrencyId, w: AccountId| #[trigger] other.free(c, w) == self.free(c, w)
        &&& forall|c: CurrencyId| #[trigger] other.issuance(c) == self.issuance(c)
        &&& other.ed() == self.ed()
    }

    /// An empty ledger.
    pub fn new(existential_deposit: Balance) -> (r: Tokens)
        ensures
            r.wf(),
            r.ed() == existential_deposit,
            forall|c: CurrencyId, w: AccountId| #[trigger] r.free(c, w) == 0,
            forall|c: CurrencyId| #[trigger] r.issuance(c) == 0,
    {
        Tokens { balances: Vec::new(), issuance: Vec::new(), existential_deposit }
    }

    pub fn existential_deposit(&self) -> (r: Balance)
        ensures
            r == self.ed(),
    {
        self.existential_deposit
    }

    /// A copy of the ledger, to restore when a compound operation fails.
    pub fn snapshot(&self) -> (r: Tokens)
        requires
            self.wf(),
        ensures
            r.wf(),
            self.same_balances(&r),
    {
        let balances = copy_rows(&self.balances);
        let issuance = copy_rows(&self.issuance);
        let r = Tokens { balances, issuance, existential_deposit: self.existential_deposit };
        assert forall|c: CurrencyId| #[trigger] r.issuance(c) == r.held(c) by {
            assert(self.issuance(c) == self.held(c));
        }
        r
    }

    /// No balance is negative.
    pub proof fn lemma_free_nonneg(&self, c: CurrencyId, who: AccountId)
        ensures
            self.free(c, who) >= 0,
    {
        lemma_sum_nonneg(self.balances@, free_at(c, who));
    }

    proof fn lemma_free_of_row(&self, i: int)
        requires
            self.keys_ok(),
            0 <= i < self.balances@.len(),
        ensures
            self.free(self.balances@[i].currency_id, self.balances@[i].who) == self.balances@[i].free,
    {
        let r = self.balances@[i];
        let f = free_at(r.currency_id, r.who);
        assert forall|j: int| 0 <= j < self.balances@.len() && j != i implies f(
            #[trigger] self.balances@[j],
        ) == 0 by {
            if j < i {
                assert(!(self.balances@[j].currency_id == self.balances@[i].currency_id
                    && self.balances@[j].who == self.balances@[i].who));
            } else {
                assert(!(self.balances@[i].currency_id == self.balances@[j].currency_id
                    && self.balances@[i].who == self.balances@[j].who));
            }
        }
        lemma_sum_single(self.balances@, i, f);
    }

    proof fn lemma_issuance_of_row(&self, i: int)
        requires
            self.keys_ok(),
            0 <= i < self.issuance@.len(),
        ensures
            self.issuance(self.issuance@[i].currency_id) == self.issuance@[i].total,
    {
        let r = self.issuance@[i];
        let f = issued_in(r.currency_id);
        assert forall|j: int| 0 <= j < self.issuance@.len() && j != i implies f(
            #[trigger] self.issuance@[j],
        ) == 0 by {
            if j < i {
                assert(self.issuance@[j].currency_id != self.issuance@[i].currency_id);
            } else {
                assert(self.issuance@[i].currency_id != self.issuance@[j].currency_id);
            }
        }
        lemma_sum_single(self.issuance@, i, f);
    }

    fn find_balance(&self, c: CurrencyId, who: AccountId) -> (r: Option<usize>)
        ensures
            match r {
                Some(i) => i < self.balances@.len() && self.balances@[i as int].currency_id == c
                    && self.balances@[i as int].who == who,
                None => forall|j: int| 0 <= j < self.balances@.len() ==> !(
                    #[trigger] self.balances@[j].currency_id == c && self.balances@[j].who == who),
            },
    {
        let mut i: usize = 0;
        while i < self.balances.len()
            invariant
                i <= self.balances@.len(),
                forall|j: int| 0 <= j < i ==> !(#[trigger] self.balances@[j].currency_id == c
                    && self.balances@[j].who == who),
            decreases self.balances.len() - i,
        {
            let row = self.balances[i];
            if row.currency_id == c && row.who == who {
                return Some(i);
            }
            i = i + 1;
        }
        None
    }

    fn find_issuance(&self, c: CurrencyId) -> (r: Option<usize>)
        ensures
            match r {
                Some(i) => i < self.issuance@.len() && self.issuance@[i as int].currency_id == c,
                None => forall|j: int| 0 <= j < self.issuance@.len() ==> #[trigger] self.issuance@[j].currency_id != c,
            },
    {
        let mut i: usize = 0;
        while i < self.issuance.len()
            invariant
                i <= self.issuance@.len(),
                forall|j: int| 0 <= j < i ==> #[trigger] self.issuance@[j].currency_id != c,
            decreases self.issuance.len() - i,
        {
            if self.issuance[i].currency_id == c {
                return Some(i);
            }
            i = i + 1;
        }
        None
    }

    /// The free balance of `who` in currency `c`.
    pub fn free_balance(&self, c: CurrencyId, who: AccountId) -> (r: Balance)
        requires
            self.wf(),
        ensures
            r == self.free(c, who),
    {
        match self.find_balance(c, who) {
            Some(i) => {
                proof {
                    self.lemma_free_of_row(i as int);
                }
                self.balances[i].free
            },
            None => {
                proof {
                    lemma_sum_zero(self.balances@, free_at(c, who));
                }
                0
            },
        }
    }

    /// The total issuance of currency `c`.
    pub fn total_issuance(&self, c: CurrencyId) -> (r: Balance)
        requires
            self.wf(),
        ensures
            r == self.issuance(c),
    {
        match self.find_issuance(c) {
            Some(i) => {
                proof {
                    self.lemma_issuance_of_row(i as int);
                }
                self.issuance[i].total
            },
            None => {
                proof {
                    lemma_sum_zero(self.issuance@, issued_in(c));
                }
                0
            },
        }
    }

    fn set_free(&mut self, c: CurrencyId, who: AccountId, v: Balance)
        requires
            old(self).keys_ok(),
        ensures
            final(self).keys_ok(),
            forall|c2: CurrencyId| #[trigger] final(self).held(c2) == old(self).held(c2)
                + if c2 == c { v - old(self).free(c, who) } else { 0 },
            final(self).free(c, who) == v,
            forall|c2: CurrencyId, w2: AccountId|
                !(c2 == c && w2 == who) ==> #[trigger] final(self).free(c2, w2) == old(self).free(c2, w2),
            forall|c2: CurrencyId| #[trigger] final(self).issuance(c2) == old(self).issuance(c2),
            final(self).ed() == old(self).ed(),
    {
        let row = BalanceRow { currency_id: c, who, free: v };
        let ghost s = self.balances@;
        match self.find_balance(c, who) {
            Some(i) => {
                proof {
                    self.lemma_free_of_row(i as int);
                }
                self.balances.set(i, row);
                proof {
                    assert(self.balances@ == s.update(i as int, row));
                    assert forall|f: spec_fn(BalanceRow) -> int| #[trigger] sum_of(self.balances@, f)
                        == sum_of(s, f) - f(s[i as int]) + f(row) by {
                        lemma_sum_update(s, i as int, row, f);
                    }
                    let t = self.balances@;
                    assert forall|a: int, b: int| 0 <= a < b < t.len() implies !(#[trigger] t[a].currency_id
                        == #[trigger] t[b].currency_id && t[a].who == t[b].who) by {
                        assert(!(s[a].currency_id == s[b].currency_id && s[a].who == s[b].who));
                    }
                }
            },
            None => {
                proof {
                    lemma_sum_zero(s, free_at(c, who));
                }
                self.balances.push(row);
                proof {
                    assert forall|f: spec_fn(BalanceRow) -> int| #[trigger] sum_of(self.balances@, f)
                        == sum_of(s, f) + f(row) by {
                        lemma_sum_push(s, row, f);
                    }
                }
            },
        }
    }

    fn set_issuance(&mut self, c: CurrencyId, v: Balance)
        requires
            old(self).keys_ok(),
        ensures
            final(self).keys_ok(),
            forall|c2: CurrencyId| #[trigger] final(self).held(c2) == old(self).held(c2),
            final(self).issuance(c) == v,
            forall|c2: CurrencyId| c2 != c ==> #[trigger] final(self).issuance(c2) == old(self).issuance(c2),
            forall|c2: CurrencyId, w2: AccountId| #[trigger] final(self).free(c2, w2) == old(self).free(c2, w2),
            final(self).ed() == old(self).ed(),
    {
        let row = IssuanceRow { currency_id: c, total: v };
        let ghost s = self.issuance@;
        match self.find_issuance(c) {
            Some(i) => {
                proof {
                    self.lemma_issuance_of_row(i as int);
                }
                self.issuance.set(i, row);
                proof {
                    assert(self.issuance@ == s.update(i as int, row));
                    assert forall|c2: CurrencyId| true implies #[trigger] self.issuance(c2)
                        == sum_of(s, issued_in(c2)) - issued_in(c2)(s[i as int]) + issued_in(c2)(row) by {
                        lemma_sum_update(s, i as int, row, issued_in(c2));
                    }
                }
            },
            None => {
                proof {
                    lemma_sum_zero(s, issued_in(c));
                }
                self.issuance.push(row);
                proof {
                    assert forall|c2: CurrencyId| true implies #[trigger] self.issuance(c2)
                        == sum_of(s, issued_in(c2)) + issued_in(c2)(row) by {
                        lemma_sum_push(s, row, issued_in(c2));
                    }
                }
            },
        }
    }

    /// No balance exceeds its currency's total issuance, nor do two
    /// balances of one currency together.
    pub proof fn lemma_within_issuance(&self, c: CurrencyId, a: AccountId, b: AccountId)
        requires
            self.wf(),
        ensures
            0 <= self.free(c, a) <= self.issuance(c),
            a != b ==> self.free(c, a) + self.free(c, b) <= self.issuance(c),
            self.issuance(c) <= u128::MAX,
    {
        let s = self.balances@;
        lemma_sum_nonneg(s, free_at(c, a));
        lemma_sum_nonneg(s, free_at(c, b));
        lemma_sum_le(s, free_at(c, a), free_in(c));
        if a != b {
            let h = |r: BalanceRow| free_at(c, a)(r) + free_at(c, b)(r);
            lemma_sum_add(s, free_at(c, a), free_at(c, b), h);
            lemma_sum_le(s, h, free_in(c));
        }
        assert(self.issuance(c) == self.held(c));
        if exists|i: int| 0 <= i < self.issuance@.len() && (#[trigger] self.issuance@[i]).currency_id == c {
            let i = choose|i: int| 0 <= i < self.issuance@.len() && (#[trigger] self.issuance@[i]).currency_id == c;
            self.lemma_issuance_of_row(i);
        } else {
            lemma_sum_zero(self.issuance@, issued_in(c));
        }
    }

    /// Moves `amount` of currency `c` from `from` to `to`.
    pub fn transfer(&mut self, c: CurrencyId, from: AccountId, to: AccountId, amount: Balance) -> (r: DispatchResult)
        requires
            old(self).wf(),
        ensures
            final(self).wf(),
            r == transfer_check(old(self).free(c, from), old(self).free(c, to), amount as int, old(self).ed(), from == to),
            r is Ok ==> transferred(old(self), final(self), c, from, to, amount as int),
            r is Err ==> old(self).same_balances(final(self)),
    {
        if amount == 0 || from == to {
            return Ok(());
        }
        let from_free = self.free_balance(c, from);
        let to_free = self.free_balance(c, to);
        if from_free < amount {
            return Err(DispatchError::Token(TokenError::BalanceTooLow));
        }
        proof {
            self.lemma_within_issuance(c, from, to);
        }
        if to_free + amount < self.existential_deposit {
            return Err(DispatchError::Token(TokenError::ExistentialDeposit));
        }
        let ghost k0 = *self;
        self.set_free(c, from, from_free - amount);
        self.set_free(c, to, to_free + amount);
        proof {
            assert forall|c2: CurrencyId| #[trigger] self.issuance(c2) == self.held(c2) by {
                assert(k0.issuance(c2) == k0.held(c2));
            }
        }
        Ok(())
    }

    /// Mints `amount` of currency `c` into `to`.
    pub fn deposit(&mut self, c: CurrencyId, to: AccountId, amount: Balance) -> (r: DispatchResult)
        requires
            old(self).wf(),
        ensures
            final(self).wf(),
            r == deposit_check(old(self).issuance(c), amount as int),
            r is Ok ==> minted(old(self), final(self), c, to, amount as int),
            r is Err ==> old(self).same_balances(final(self)),
    {
        if amount == 0 {
            return Ok(());
        }
        let issued = self.total_issuance(c);
        let to_free = self.free_balance(c, to);
        if issued > u128::MAX - amount {
            return Err(DispatchError::Arithmetic(ArithmeticError::Overflow));
        }
        proof {
            self.lemma_within_issuance(c, to, to);
        }
        let ghost k0 = *self;
        self.set_issuance(c, issued + amount);
        self.set_free(c, to, to_free + amount);
        proof {
            assert forall|c2: CurrencyId| #[trigger] self.issuance(c2) == self.held(c2) by {
                assert(k0.issuance(c2) == k0.held(c2));
            }
        }
        Ok(())
    }

    /// Burns `amount` of currency `c` held by `who`.
    pub fn withdraw(&mut self, c: CurrencyId, who: AccountId, amount: Balance) -> (r: DispatchResult)
        requires
            old(self).wf(),
        ensures
            final(self).wf(),
            r == withdraw_check(old(self).free(c, who), amount as int),
            r is Ok ==> minted(old(self), final(self), c, who, -(amount as int)),
            r is Err ==> old(self).same_balances(final(self)),
    {
        if amount == 0 {
            return Ok(());
        }
        let issued = self.total_issuance(c);
        let free = self.free_balance(c, who);
        if free < amount {
            return Err(DispatchError::Token(TokenError::BalanceTooLow));
        }
        proof {
            self.lemma_within_issuance(c, who, who);
        }
        let ghost k0 = *self;
        self.set_issuance(c, issued - amount);
        self.set_free(c, who, free - amount);
        proof {
            assert forall|c2: CurrencyId| #[trigger] self.issuance(c2) == self.held(c2) by {
                assert(k0.issuance(c2) == k0.held(c2));
            }
        }
        Ok(())
    }
}

} // verus!
