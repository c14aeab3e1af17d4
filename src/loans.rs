//! The position ledger: each account's collateral and debit per collateral
//! type, the per-type totals kept in lock-step with them, and the
//! operations that open, adjust, move and confiscate positions.
use crate::sums::{copy_rows, lemma_sum_add, lemma_sum_le, lemma_sum_push, lemma_sum_remove, lemma_sum_single, lemma_sum_update, lemma_sum_zero, sum_of};
use crate::tokens::{deposit_check, transfer_check, transfer_delta, transferred, withdraw_check, Tokens};
use crate::traits::RiskManager;
use crate::treasury::{debit_check, CdpTreasury};
use crate::types::{amount_try_from_balance, magnitude, AccountId, Amount, ArithmeticError, Balance, CurrencyId, DispatchError, DispatchResult, Position};
use vstd::prelude::*;

verus! {

#[derive(Clone, Copy)]
pub struct PositionRow {
    pub currency_id: CurrencyId,
    pub owner: AccountId,
    pub collateral: Balance,
    pub debit: Balance,
}

#[derive(Clone, Copy)]
pub struct TotalRow {
    pub currency_id: CurrencyId,
    pub collateral: Balance,
    pub debit: Balance,
}

/// A notification of a completed operation.
#[derive(Clone, Copy, Debug, PartialEq, Eq, Structural)]
pub enum Event {
    PositionUpdated {
        owner: AccountId,
        collateral_type: CurrencyId,
        collateral_adjustment: Amount,
        debit_adjustment: Amount,
    },
    ConfiscateCollateralAndDebit {
        owner: AccountId,
        collateral_type: CurrencyId,
        confiscated_collateral_amount: Balance,
        deduct_debit_amount: Balance,
    },
    TransferLoan { from: AccountId, to: AccountId, currency_id: CurrencyId },
}

pub open spec fn is_key(r: PositionRow, c: CurrencyId, who: AccountId) -> bool {
    r.currency_id == c && r.owner == who
}

pub open spec fn collateral_at(c: CurrencyId, who: AccountId) -> spec_fn(PositionRow) -> int {
    |r: PositionRow| if is_key(r, c, who) { r.collateral as int } else { 0 }
}

pub open spec fn debit_at(c: CurrencyId, who: AccountId) -> spec_fn(PositionRow) -> int {
    |r: PositionRow| if is_key(r, c, who) { r.debit as int } else { 0 }
}

pub open spec fn present_at(c: CurrencyId, who: AccountId) -> spec_fn(PositionRow) -> int {
    |r: PositionRow| if is_key(r, c, who) { 1int } else { 0int }
}

pub open spec fn collateral_in(c: CurrencyId) -> spec_fn(PositionRow) -> int {
    |r: PositionRow| if r.currency_id == c { r.collateral as int } else { 0 }
}

pub open spec fn debit_in(c: CurrencyId) -> spec_fn(PositionRow) -> int {
    |r: PositionRow| if r.currency_id == c { r.debit as int } else { 0 }
}

pub open spec fn owned_by(who: AccountId) -> spec_fn(PositionRow) -> int {
    |r: PositionRow| if r.owner == who { 1int } else { 0int }
}

pub open spec fn total_collateral_in(c: CurrencyId) -> spec_fn(TotalRow) -> int {
    |r: TotalRow| if r.currency_id == c { r.collateral as int } else { 0 }
}

pub open spec fn total_debit_in(c: CurrencyId) -> spec_fn(TotalRow) -> int {
    |r: TotalRow| if r.currency_id == c { r.debit as int } else { 0 }
}

/// At most one row per (collateral type, owner), and none of them empty.
pub open spec fn rows_ok(rows: Seq<PositionRow>) -> bool {
    &&& forall|i: int, j: int|
        0 <= i < j < rows.len() ==> !is_key(#[trigger] rows[i], rows[j].currency_id, #[trigger] rows[j].owner)
    &&& forall|i: int| 0 <= i < rows.len() ==> (#[trigger] rows[i]).collateral != 0 || rows[i].debit != 0
}

/// At most one total per collateral type.
pub open spec fn totals_ok(rows: Seq<TotalRow>) -> bool {
    forall|i: int, j: int|
        0 <= i < j < rows.len() ==> #[trigger] rows[i].currency_id != #[trigger] rows[j].currency_id
}

/// What applying `delta` to `balance` comes to.
pub open spec fn delta_check(balance: int, delta: int) -> DispatchResult {
    if balance + delta < 0 {
        Err(DispatchError::Arithmetic(ArithmeticError::Underflow))
    } else if balance + delta > u128::MAX {
        Err(DispatchError::Arithmetic(ArithmeticError::Overflow))
    } else {
        Ok(())
    }
}

/// Applies `delta` to `balance`, refusing a result below zero or above the
/// largest balance.
fn apply_delta(balance: Balance, delta: Amount, magnitude: Balance) -> (r: Result<Balance, DispatchError>)
    requires
        magnitude as int == if delta >= 0 { delta as int } else { -(delta as int) },
    ensures
        delta_check(balance as int, delta as int) is Ok ==> r == Ok::<Balance, DispatchError>((balance + delta) as u128),
        delta_check(balance as int, delta as int) is Err ==> r == Err::<Balance, DispatchError>(
            delta_check(balance as int, delta as int)->Err_0,
        ),
{
    if delta >= 0 {
        if balance > u128::MAX - magnitude {
            Err(DispatchError::Arithmetic(ArithmeticError::Overflow))
        } else {
            Ok(balance + magnitude)
        }
    } else {
        if balance < magnitude {
            Err(DispatchError::Arithmetic(ArithmeticError::Underflow))
        } else {
            Ok(balance - magnitude)
        }
    }
}

/// What an update of `who`'s position in `c` by `dc` and `dd` comes to: the
/// totals are checked first, collateral before debit, then the position.
pub open spec fn update_loan_check(l: &Loans, who: AccountId, c: CurrencyId, dc: int, dd: int) -> DispatchResult {
    if delta_check(l.total_collateral(c), dc) is Err {
        delta_check(l.total_collateral(c), dc)
    } else if delta_check(l.total_debit(c), dd) is Err {
        delta_check(l.total_debit(c), dd)
    } else if delta_check(l.collateral(c, who), dc) is Err {
        delta_check(l.collateral(c, who), dc)
    } else {
        delta_check(l.debit(c, who), dd)
    }
}

/// `l1` is `l0` with `who`'s position in `c`, and the totals of `c`, moved
/// by `dc` and `dd`; the row exists exactly when the position is not empty,
/// and the owner's reference count follows the row.
pub open spec fn loan_updated(l0: &Loans, l1: &Loans, who: AccountId, c: CurrencyId, dc: int, dd: int) -> bool {
    &&& l1.account() == l0.account()
    &&& forall|c2: CurrencyId, w2: AccountId| #[trigger] l1.collateral(c2, w2)
        == l0.collateral(c2, w2) + if c2 == c && w2 == who { dc } else { 0 }
    &&& forall|c2: CurrencyId, w2: AccountId| #[trigger] l1.debit(c2, w2)
        == l0.debit(c2, w2) + if c2 == c && w2 == who { dd } else { 0 }
    &&& forall|c2: CurrencyId| #[trigger] l1.total_collateral(c2) == l0.total_collateral(c2) + if c2 == c { dc } else { 0 }
    &&& forall|c2: CurrencyId| #[trigger] l1.total_debit(c2) == l0.total_debit(c2) + if c2 == c { dd } else { 0 }
    &&& forall|c2: CurrencyId, w2: AccountId| #[trigger] l1.has_position(c2, w2)
        == if c2 == c && w2 == who { l1.collateral(c, who) != 0 || l1.debit(c, who) != 0 } else { l0.has_position(c2, w2) }
    &&& forall|w2: AccountId| #[trigger] l1.consumers_spec(w2) == l0.consumers_spec(w2) + if w2 == who {
        (if l1.has_position(c, who) { 1int } else { 0int }) - (if l0.has_position(c, who) { 1int } else { 0int })
    } else { 0 }
}

/// `l1` is `l0` with `from`'s position in `c` merged into `to`'s.
pub open spec fn loan_transferred(l0: &Loans, l1: &Loans, from: AccountId, to: AccountId, c: CurrencyId) -> bool {
    &&& l1.account() == l0.account()
    &&& forall|c2: CurrencyId| #[trigger] l1.total_collateral(c2) == l0.total_collateral(c2)
    &&& forall|c2: CurrencyId| #[trigger] l1.total_debit(c2) == l0.total_debit(c2)
    &&& forall|c2: CurrencyId, w2: AccountId| #[trigger] l1.collateral(c2, w2) == if from != to && c2 == c && w2 == to {
        l0.collateral(c, to) + l0.collateral(c, from)
    } else if from != to && c2 == c && w2 == from {
        0
    } else {
        l0.collateral(c2, w2)
    }
    &&& forall|c2: CurrencyId, w2: AccountId| #[trigger] l1.debit(c2, w2) == if from != to && c2 == c && w2 == to {
        l0.debit(c, to) + l0.debit(c, from)
    } else if from != to && c2 == c && w2 == from {
        0
    } else {
        l0.debit(c2, w2)
    }
    &&& from != to ==> !l1.has_position(c, from)
}

/// What moving `dc` of collateral `c` from `who` into the escrow account
/// `escrow` comes to (out of it, where `dc` is negative).
pub open spec fn collateral_move_check(k: &Tokens, c: CurrencyId, who: AccountId, escrow: AccountId, dc: int) -> DispatchResult {
    if dc > 0 {
        transfer_check(k.free(c, who), k.free(c, escrow), dc, k.ed(), who == escrow)
    } else if dc < 0 {
        transfer_check(k.free(c, escrow), k.free(c, who), -dc, k.ed(), escrow == who)
    } else {
        Ok(())
    }
}

/// What minting `dd` of the stable currency `s` to `who` comes to (burning,
/// where `dd` is negative), after the collateral move.
pub open spec fn debit_move_check(k: &Tokens, s: CurrencyId, c: CurrencyId, who: AccountId, escrow: AccountId, dc: int, dd: int) -> DispatchResult {
    let held = k.free(s, who) + transfer_delta(c, who, escrow, dc, s, who);
    if dd > 0 {
        deposit_check(k.issuance(s), dd)
    } else if dd < 0 {
        withdraw_check(held, -dd)
    } else {
        Ok(())
    }
}

/// What an adjustment of `who`'s position in `c` by `dc` and `dd` comes to:
/// the first of the collateral move, the mint or burn, the update, the debit
/// cap (where debit grows) and the risk check that refuses.
pub open spec fn adjust_position_check<R: RiskManager>(
    l: &Loans,
    k: &Tokens,
    t: &CdpTreasury,
    risk: &R,
    who: AccountId,
    c: CurrencyId,
    dc: int,
    dd: int,
) -> DispatchResult {
    let escrow = l.account();
    if collateral_move_check(k, c, who, escrow, dc) is Err {
        collateral_move_check(k, c, who, escrow, dc)
    } else if debit_move_check(k, t.stable(), c, who, escrow, dc, dd) is Err {
        debit_move_check(k, t.stable(), c, who, escrow, dc, dd)
    } else if update_loan_check(l, who, c, dc, dd) is Err {
        update_loan_check(l, who, c, dc, dd)
    } else if dd > 0 && risk.debit_cap_verdict(c, (l.total_debit(c) + dd) as u128) is Err {
        risk.debit_cap_verdict(c, (l.total_debit(c) + dd) as u128)
    } else {
        risk.position_verdict(c, (l.collateral(c, who) + dc) as u128, (l.debit(c, who) + dd) as u128, dc < 0 || dd > 0)
    }
}

/// `k1` is `k0` after `dc` of collateral `c` went from `who` to the escrow
/// account and `dd` of the stable currency `s` was minted to `who`.
pub open spec fn balances_adjusted(k0: &Tokens, k1: &Tokens, s: CurrencyId, c: CurrencyId, who: AccountId, escrow: AccountId, dc: int, dd: int) -> bool {
    &&& forall|c2: CurrencyId, w2: AccountId| #[trigger] k1.free(c2, w2) == k0.free(c2, w2)
        + transfer_delta(c, who, escrow, dc, c2, w2) + if c2 == s && w2 == who { dd } else { 0 }
    &&& forall|c2: CurrencyId| #[trigger] k1.issuance(c2) == k0.issuance(c2) + if c2 == s { dd } else { 0 }
    &&& k1.ed() == k0.ed()
}

proof fn lemma_same_rows_wf(a: &Loans, b: &Loans)
    requires
        a.wf(),
        b.rows() == a.rows(),
        b.total_rows() == a.total_rows(),
    ensures
        b.wf(),
{
    assert forall|c: CurrencyId| #[trigger] b.total_collateral(c) == b.rows_collateral(c) && b.total_debit(c)
        == b.rows_debit(c) by {
        assert(a.total_collateral(c) == a.rows_collateral(c));
        assert(a.total_debit(c) == a.rows_debit(c));
    }
}

/// What confiscating `coll` collateral and `debit` debt of `who`'s position
/// in `c` comes to: both amounts must fit an adjustment, then the first of
/// the collateral move, the debit pool and the update that refuses.
pub open spec fn confiscate_check(l: &Loans, k: &Tokens, t: &CdpTreasury, who: AccountId, c: CurrencyId, coll: int, debit: int) -> DispatchResult {
    if coll > i128::MAX || debit > i128::MAX {
        Err(DispatchError::AmountConvertFailed)
    } else if transfer_check(k.free(c, l.account()), k.free(c, t.account()), coll, k.ed(), l.account() == t.account()) is Err {
        transfer_check(k.free(c, l.account()), k.free(c, t.account()), coll, k.ed(), l.account() == t.account())
    } else if debit_check(t.debit() as int, debit) is Err {
        debit_check(t.debit() as int, debit)
    } else {
        update_loan_check(l, who, c, -coll, -debit)
    }
}

/// The positions of every account, the per-type totals, and the log of
/// notifications. The collateral of all positions sits in the ledger's
/// escrow account.
pub struct Loans {
    module_account: AccountId,
    positions: Vec<PositionRow>,
    totals: Vec<TotalRow>,
    events: Vec<Event>,
}

impl Loans {
    pub closed spec fn rows(&self) -> Seq<PositionRow> {
        self.positions@
    }

    pub closed spec fn total_rows(&self) -> Seq<TotalRow> {
        self.totals@
    }

    /// The escrow account holding the collateral of all positions.
    pub closed spec fn account(&self) -> AccountId {
        self.module_account
    }

    pub closed spec fn event_log(&self) -> Seq<Event> {
        self.events@
    }

    pub open spec fn collateral(&self, c: CurrencyId, who: AccountId) -> int {
        sum_of(self.rows(), collateral_at(c, who))
    }

    pub open spec fn debit(&self, c: CurrencyId, who: AccountId) -> int {
        sum_of(self.rows(), debit_at(c, who))
    }

    /// Whether storage holds a row for `who`'s position in `c`.
    pub open spec fn has_position(&self, c: CurrencyId, who: AccountId) -> bool {
        sum_of(self.rows(), present_at(c, who)) != 0
    }

    /// The sum of the collateral of all positions in `c`.
    pub open spec fn rows_collateral(&self, c: CurrencyId) -> int {
        sum_of(self.rows(), collateral_in(c))
    }

    /// The sum of the debit of all positions in `c`.
    pub open spec fn rows_debit(&self, c: CurrencyId) -> int {
        sum_of(self.rows(), debit_in(c))
    }

    pub open spec fn total_collateral(&self, c: CurrencyId) -> int {
        sum_of(self.total_rows(), total_collateral_in(c))
    }

    pub open spec fn total_debit(&self, c: CurrencyId) -> int {
        sum_of(self.total_rows(), total_debit_in(c))
    }

    /// The reference count that `who`'s open positions put on the account.
    pub open spec fn consumers_spec(&self, who: AccountId) -> int {
        sum_of(self.rows(), owned_by(who))
    }

    /// The totals of every collateral type are the sums over its positions.
    pub open spec fn conserved(&self) -> bool {
        forall|c: CurrencyId|
            #[trigger] self.total_collateral(c) == self.rows_collateral(c) && self.total_debit(c) == self.rows_debit(c)
    }

    pub open spec fn wf(&self) -> bool {
        &&& rows_ok(self.rows())
        &&& totals_ok(self.total_rows())
        &&& self.conserved()
    }

    /// Every position, total and notification unchanged.
    pub open spec fn same_loans(&self, other: &Loans) -> bool {
        &&& other.account() == self.account()
        &&& other.rows() == self.rows()
        &&& other.total_rows() == self.total_rows()
        &&& other.event_log() == self.event_log()
    }

    /// An empty ledger whose escrow account is `module_account`.
    pub fn new(module_account: AccountId) -> (r: Loans)
        ensures
            r.wf(),
            r.account() == module_account,
            r.rows() == Seq::<PositionRow>::empty(),
            r.total_rows() == Seq::<TotalRow>::empty(),
            r.event_log() == Seq::<Event>::empty(),
    {
        let r = Loans { module_account, positions: Vec::new(), totals: Vec::new(), events: Vec::new() };
        assert forall|c: CurrencyId| #[trigger] r.total_collateral(c) == r.rows_collateral(c) && r.total_debit(c)
            == r.rows_debit(c) by {}
        r
    }

    pub fn account_id(&self) -> (r: AccountId)
        ensures
            r == self.account(),
    {
        self.module_account
    }

    /// The most recent notification, if any.
    pub fn last_event(&self) -> (r: Option<Event>)
        ensures
            self.event_log().len() == 0 ==> r is None,
            self.event_log().len() > 0 ==> r == Some(self.event_log().last()),
    {
        if self.events.len() == 0 {
            None
        } else {
            Some(self.events[self.events.len() - 1])
        }
    }

    /// Every notification so far, oldest first.
    pub fn events(&self) -> (r: Vec<Event>)
        ensures
            r@ == self.event_log(),
    {
        copy_rows(&self.events)
    }

    /// A copy of the ledger, to restore when a compound operation fails.
    pub fn snapshot(&self) -> (r: Loans)
        ensures
            self.same_loans(&r),
    {
        Loans {
            module_account: self.module_account,
            positions: copy_rows(&self.positions),
            totals: copy_rows(&self.totals),
            events: copy_rows(&self.events),
        }
    }

    proof fn lemma_row_values(&self, i: int)
        requires
            rows_ok(self.rows()),
            0 <= i < self.rows().len(),
        ensures
            self.collateral(self.rows()[i].currency_id, self.rows()[i].owner) == self.rows()[i].collateral,
            self.debit(self.rows()[i].currency_id, self.rows()[i].owner) == self.rows()[i].debit,
            sum_of(self.rows(), present_at(self.rows()[i].currency_id, self.rows()[i].owner)) == 1,
    {
        let s = self.rows();
        let c = s[i].currency_id;
        let w = s[i].owner;
        assert forall|j: int| 0 <= j < s.len() && j != i implies !is_key(#[trigger] s[j], c, w) by {
            if j < i {
                assert(!is_key(s[j], s[i].currency_id, s[i].owner));
            } else {
                assert(!is_key(s[i], s[j].currency_id, s[j].owner));
            }
        }
        lemma_sum_single(s, i, collateral_at(c, w));
        lemma_sum_single(s, i, debit_at(c, w));
        lemma_sum_single(s, i, present_at(c, w));
    }

    proof fn lemma_no_row(&self, c: CurrencyId, who: AccountId)
        requires
            forall|j: int| 0 <= j < self.rows().len() ==> !is_key(#[trigger] self.rows()[j], c, who),
        ensures
            self.collateral(c, who) == 0,
            self.debit(c, who) == 0,
            !self.has_position(c, who),
    {
        lemma_sum_zero(self.rows(), collateral_at(c, who));
        lemma_sum_zero(self.rows(), debit_at(c, who));
        lemma_sum_zero(self.rows(), present_at(c, who));
    }

    proof fn lemma_total_of_row(&self, i: int)
        requires
            totals_ok(self.total_rows()),
            0 <= i < self.total_rows().len(),
        ensures
            self.total_collateral(self.total_rows()[i].currency_id) == self.total_rows()[i].collateral,
            self.total_debit(self.total_rows()[i].currency_id) == self.total_rows()[i].debit,
    {
        let s = self.total_rows();
        let c = s[i].currency_id;
        assert forall|j: int| 0 <= j < s.len() && j != i implies (#[trigger] s[j]).currency_id != c by {
            if j < i {
                assert(s[j].currency_id != s[i].currency_id);
            } else {
                assert(s[i].currency_id != s[j].currency_id);
            }
        }
        lemma_sum_single(s, i, total_collateral_in(c));
        lemma_sum_single(s, i, total_debit_in(c));
    }

    fn position_index(&self, c: CurrencyId, who: AccountId) -> (r: Option<usize>)
        ensures
            match r {
                Some(i) => i < self.rows().len() && is_key(self.rows()[i as int], c, who),
                None => forall|j: int| 0 <= j < self.rows().len() ==> !is_key(#[trigger] self.rows()[j], c, who),
            },
    {
        let mut i: usize = 0;
        while i < self.positions.len()
            invariant
                i <= self.positions@.len(),
                forall|j: int| 0 <= j < i ==> !is_key(#[trigger] self.positions@[j], c, who),
            decreases self.positions.len() - i,
        {
            let row = self.positions[i];
            if row.currency_id == c && row.owner == who {
                return Some(i);
            }
            i = i + 1;
        }
        None
    }

    fn total_index(&self, c: CurrencyId) -> (r: Option<usize>)
        ensures
            match r {
                Some(i) => i < self.total_rows().len() && self.total_rows()[i as int].currency_id == c,
                None => forall|j: int| 0 <= j < self.total_rows().len() ==> (#[trigger] self.total_rows()[j]).currency_id != c,
            },
    {
        let mut i: usize = 0;
        while i < self.totals.len()
            invariant
                i <= self.totals@.len(),
                forall|j: int| 0 <= j < i ==> (#[trigger] self.totals@[j]).currency_id != c,
            decreases self.totals.len() - i,
        {
            if self.totals[i].currency_id == c {
                return Some(i);
            }
            i = i + 1;
        }
        None
    }

    fn push_event(&mut self, e: Event)
        requires
            old(self).wf(),
        ensures
            final(self).wf(),
            final(self).account() == old(self).account(),
            final(self).rows() == old(self).rows(),
            final(self).total_rows() == old(self).total_rows(),
            final(self).event_log() == old(self).event_log().push(e),
    {
        let ghost l0 = *self;
        self.events.push(e);
        proof {
            lemma_same_rows_wf(&l0, self);
        }
    }

    /// `who`'s position in collateral type `c`; zero where there is none.
    pub fn positions(&self, c: CurrencyId, who: AccountId) -> (r: Position)
        requires
            rows_ok(self.rows()),
        ensures
            r.collateral == self.collateral(c, who),
            r.debit == self.debit(c, who),
    {
        match self.position_index(c, who) {
            Some(i) => {
                proof {
                    self.lemma_row_values(i as int);
                }
                Position { collateral: self.positions[i].collateral, debit: self.positions[i].debit }
            },
            None => {
                proof {
                    self.lemma_no_row(c, who);
                }
                Position { collateral: 0, debit: 0 }
            },
        }
    }

    /// Whether storage holds a row for `who`'s position in `c`.
    pub fn contains_position(&self, c: CurrencyId, who: AccountId) -> (r: bool)
        requires
            rows_ok(self.rows()),
        ensures
            r == self.has_position(c, who),
    {
        match self.position_index(c, who) {
            Some(i) => {
                proof {
                    self.lemma_row_values(i as int);
                }
                true
            },
            None => {
                proof {
                    self.lemma_no_row(c, who);
                }
                false
            },
        }
    }

    /// The totals of collateral type `c`.
    pub fn total_positions(&self, c: CurrencyId) -> (r: Position)
        requires
            totals_ok(self.total_rows()),
        ensures
            r.collateral == self.total_collateral(c),
            r.debit == self.total_debit(c),
    {
        match self.total_index(c) {
            Some(i) => {
                proof {
                    self.lemma_total_of_row(i as int);
                }
                Position { collateral: self.totals[i].collateral, debit: self.totals[i].debit }
            },
            None => {
                proof {
                    lemma_sum_zero(self.total_rows(), total_collateral_in(c));
                    lemma_sum_zero(self.total_rows(), total_debit_in(c));
                }
                Position { collateral: 0, debit: 0 }
            },
        }
    }

    /// The number of open positions of `who`: the reference count they put
    /// on the account.
    pub fn consumers(&self, who: AccountId) -> (r: usize)
        ensures
            r == self.consumers_spec(who),
    {
        let mut count: usize = 0;
        let mut i: usize = 0;
        while i < self.positions.len()
            invariant
                i <= self.positions@.len(),
                count <= i,
                count == sum_of(self.positions@.take(i as int), owned_by(who)),
            decreases self.positions.len() - i,
        {
            proof {
                crate::sums::lemma_sum_take(self.positions@, i as int, owned_by(who));
            }
            if self.positions[i].owner == who {
                count = count + 1;
            }
            i = i + 1;
        }
        assert(self.positions@.take(self.positions@.len() as int) =~= self.positions@);
        count
    }

    /// Writes `np` as `who`'s position in `c`: the row is created, replaced
    /// or removed so that no empty row remains. Totals are left alone.
    fn set_position(&mut self, c: CurrencyId, who: AccountId, np: Position)
        requires
            rows_ok(old(self).rows()),
        ensures
            rows_ok(final(self).rows()),
            final(self).total_rows() == old(self).total_rows(),
            final(self).account() == old(self).account(),
            final(self).event_log() == old(self).event_log(),
            forall|c2: CurrencyId, w2: AccountId| #[trigger] final(self).collateral(c2, w2)
                == if c2 == c && w2 == who { np.collateral as int } else { old(self).collateral(c2, w2) },
            forall|c2: CurrencyId, w2: AccountId| #[trigger] final(self).debit(c2, w2)
                == if c2 == c && w2 == who { np.debit as int } else { old(self).debit(c2, w2) },
            forall|c2: CurrencyId, w2: AccountId| #[trigger] final(self).has_position(c2, w2)
                == if c2 == c && w2 == who { np.collateral != 0 || np.debit != 0 } else { old(self).has_position(c2, w2) },
            forall|c2: CurrencyId| #[trigger] final(self).rows_collateral(c2) == old(self).rows_collateral(c2)
                + if c2 == c { np.collateral - old(self).collateral(c, who) } else { 0 },
            forall|c2: CurrencyId| #[trigger] final(self).rows_debit(c2) == old(self).rows_debit(c2)
                + if c2 == c { np.debit - old(self).debit(c, who) } else { 0 },
            forall|w2: AccountId| #[trigger] final(self).consumers_spec(w2) == old(self).consumers_spec(w2)
                + if w2 == who {
                    (if np.collateral != 0 || np.debit != 0 { 1int } else { 0int })
                        - (if old(self).has_position(c, who) { 1int } else { 0int })
                } else { 0 },
    {
        let ghost s = self.positions@;
        let new_row = PositionRow { currency_id: c, owner: who, collateral: np.collateral, debit: np.debit };
        let keep = np.collateral != 0 || np.debit != 0;
        match self.position_index(c, who) {
            Some(i) => {
                let ghost old_row = s[i as int];
                proof {
                    self.lemma_row_values(i as int);
                }
                if keep {
                    self.positions.set(i, new_row);
                    proof {
                        assert(self.positions@ == s.update(i as int, new_row));
                        assert forall|f: spec_fn(PositionRow) -> int| #[trigger] sum_of(self.positions@, f)
                            == sum_of(s, f) - f(old_row) + f(new_row) by {
                            lemma_sum_update(s, i as int, new_row, f);
                        }
                        let t = self.positions@;
                        assert forall|a: int, b: int| 0 <= a < b < t.len() implies !is_key(
                            #[trigger] t[a], t[b].currency_id, #[trigger] t[b].owner) by {
                            assert(!is_key(s[a], s[b].currency_id, s[b].owner));
                        }
                    }
                } else {
                    self.positions.remove(i);
                    proof {
                        assert forall|f: spec_fn(PositionRow) -> int| #[trigger] sum_of(self.positions@, f)
                            == sum_of(s, f) - f(old_row) by {
                            lemma_sum_remove(s, i as int, f);
                        }
                        let t = self.positions@;
                        assert forall|a: int, b: int| 0 <= a < b < t.len() implies !is_key(
                            #[trigger] t[a], t[b].currency_id, #[trigger] t[b].owner) by {
                            let a0 = if a < i { a } else { a + 1 };
                            let b0 = if b < i { b } else { b + 1 };
                            assert(t[a] == s[a0] && t[b] == s[b0]);
                            assert(!is_key(s[a0], s[b0].currency_id, s[b0].owner));
                        }
                        assert forall|a: int| 0 <= a < t.len() implies (#[trigger] t[a]).collateral != 0
                            || t[a].debit != 0 by {
                            let a0 = if a < i { a } else { a + 1 };
                            assert(t[a] == s[a0]);
                        }
                    }
                }
            },
            None => {
                proof {
                    self.lemma_no_row(c, who);
                }
                if keep {
                    self.positions.push(new_row);
                    proof {
                        assert forall|f: spec_fn(PositionRow) -> int| #[trigger] sum_of(self.positions@, f)
                            == sum_of(s, f) + f(new_row) by {
                            lemma_sum_push(s, new_row, f);
                        }
                        let t = self.positions@;
                        assert forall|a: int, b: int| 0 <= a < b < t.len() implies !is_key(
                            #[trigger] t[a], t[b].currency_id, #[trigger] t[b].owner) by {
                            if b == s.len() {
                                assert(t[a] == s[a]);
                                assert(!is_key(s[a], c, who));
                            } else {
                                assert(!is_key(s[a], s[b].currency_id, s[b].owner));
                            }
                        }
                        assert forall|a: int| 0 <= a < t.len() implies (#[trigger] t[a]).collateral != 0
                            || t[a].debit != 0 by {
                            if a < s.len() {
                                assert(t[a] == s[a]);
                            }
                        }
                    }
                }
            },
        }
    }

    /// Writes `t` as the totals of `c`.
    fn set_total(&mut self, c: CurrencyId, t: Position)
        requires
            totals_ok(old(self).total_rows()),
        ensures
            totals_ok(final(self).total_rows()),
            final(self).rows() == old(self).rows(),
            final(self).account() == old(self).account(),
            final(self).event_log() == old(self).event_log(),
            final(self).total_collateral(c) == t.collateral,
            final(self).total_debit(c) == t.debit,
            forall|c2: CurrencyId| c2 != c ==> #[trigger] final(self).total_collateral(c2) == old(self).total_collateral(c2),
            forall|c2: CurrencyId| c2 != c ==> #[trigger] final(self).total_debit(c2) == old(self).total_debit(c2),
    {
        let ghost s = self.totals@;
        let row = TotalRow { currency_id: c, collateral: t.collateral, debit: t.debit };
        match self.total_index(c) {
            Some(i) => {
                proof {
                    self.lemma_total_of_row(i as int);
                }
                self.totals.set(i, row);
                proof {
                    assert(self.totals@ == s.update(i as int, row));
                    assert forall|f: spec_fn(TotalRow) -> int| #[trigger] sum_of(self.totals@, f)
                        == sum_of(s, f) - f(s[i as int]) + f(row) by {
                        lemma_sum_update(s, i as int, row, f);
                    }
                }
            },
            None => {
                proof {
                    lemma_sum_zero(s, total_collateral_in(c));
                    lemma_sum_zero(s, total_debit_in(c));
                }
                self.totals.push(row);
                proof {
                    assert forall|f: spec_fn(TotalRow) -> int| #[trigger] sum_of(self.totals@, f)
                        == sum_of(s, f) + f(row) by {
                        lemma_sum_push(s, row, f);
                    }
                }
            },
        }
    }

    /// Applies `collateral_adjustment` and `debit_adjustment` to `who`'s
    /// position in `c` and to the totals of `c`. Bookkeeping only: no
    /// balance moves.
    pub fn update_loan(&mut self, who: AccountId, c: CurrencyId, collateral_adjustment: Amount, debit_adjustment: Amount) -> (r: DispatchResult)
        requires
            old(self).wf(),
        ensures
            final(self).wf(),
            r == update_loan_check(old(self), who, c, collateral_adjustment as int, debit_adjustment as int),
            r is Ok ==> loan_updated(old(self), final(self), who, c, collateral_adjustment as int, debit_adjustment as int),
            r is Ok ==> final(self).event_log() == old(self).event_log(),
            r is Err ==> old(self).same_loans(final(self)),
    {
        let dc = crate::types::magnitude(collateral_adjustment);
        let dd = crate::types::magnitude(debit_adjustment);
        let total = self.total_positions(c);
        let position = self.positions(c, who);
        let total_collateral = match apply_delta(total.collateral, collateral_adjustment, dc) {
            Ok(v) => v,
            Err(e) => return Err(e),
        };
        let total_debit = match apply_delta(total.debit, debit_adjustment, dd) {
            Ok(v) => v,
            Err(e) => return Err(e),
        };
        let collateral = match apply_delta(position.collateral, collateral_adjustment, dc) {
            Ok(v) => v,
            Err(e) => return Err(e),
        };
        let debit = match apply_delta(position.debit, debit_adjustment, dd) {
            Ok(v) => v,
            Err(e) => return Err(e),
        };
        let ghost l0 = *self;
        self.set_total(c, Position { collateral: total_collateral, debit: total_debit });
        let ghost l1 = *self;
        self.set_position(c, who, Position { collateral, debit });
        proof {
            assert forall|c2: CurrencyId| #[trigger] self.total_collateral(c2) == l1.total_collateral(c2)
                && self.total_debit(c2) == l1.total_debit(c2) by {}
            assert forall|c2: CurrencyId| #[trigger] self.total_collateral(c2) == self.rows_collateral(c2)
                && self.total_debit(c2) == self.rows_debit(c2) by {
                assert(l0.total_collateral(c2) == l0.rows_collateral(c2));
                assert(l0.total_debit(c2) == l0.rows_debit(c2));
                if c2 == c {
                    assert(self.total_collateral(c2) == l0.total_collateral(c2) + collateral_adjustment);
                    assert(self.total_debit(c2) == l0.total_debit(c2) + debit_adjustment);
                } else {
                    assert(self.total_collateral(c2) == l0.total_collateral(c2));
                }
            }
            assert forall|c2: CurrencyId| #[trigger] self.total_collateral(c2) == l0.total_collateral(c2)
                + if c2 == c { collateral_adjustment as int } else { 0 } by {}
            assert forall|c2: CurrencyId| #[trigger] self.total_debit(c2) == l0.total_debit(c2)
                + if c2 == c { debit_adjustment as int } else { 0 } by {
                assert(self.total_debit(c2) == l1.total_debit(c2));
                if c2 == c {
                    assert(self.total_debit(c2) == l0.total_debit(c2) + debit_adjustment);
                } else {
                    assert(l1.total_debit(c2) == l0.total_debit(c2));
                }
            }
        }
        Ok(())
    }

    /// Merges `from`'s whole position in `c` into `to`'s and removes
    /// `from`'s. Bookkeeping only: no balance moves.
    pub fn transfer_loan(&mut self, from: AccountId, to: AccountId, c: CurrencyId) -> (r: DispatchResult)
        requires
            old(self).wf(),
        ensures
            final(self).wf(),
            r is Ok,
            loan_transferred(old(self), final(self), from, to, c),
            final(self).event_log() == old(self).event_log().push(Event::TransferLoan { from, to, currency_id: c }),
    {
        let ghost l_start = *self;
        if from != to {
            let p = self.positions(c, from);
            let q = self.positions(c, to);
            proof {
                lemma_two_positions_within_total(self, c, from, to);
                lemma_no_negative_balances(self, c, from);
            }
            let ghost l0 = *self;
            self.set_position(c, from, Position { collateral: 0, debit: 0 });
            self.set_position(c, to, Position { collateral: q.collateral + p.collateral, debit: q.debit + p.debit });
            proof {
                assert forall|c2: CurrencyId| #[trigger] self.total_collateral(c2) == self.rows_collateral(c2)
                    && self.total_debit(c2) == self.rows_debit(c2) by {
                    assert(l0.total_collateral(c2) == l0.rows_collateral(c2));
                    assert(l0.total_debit(c2) == l0.rows_debit(c2));
                }
            }
        }
        proof {
            assert(loan_transferred(&l_start, self, from, to, c));
        }
        let ghost l_moved = *self;
        self.push_event(Event::TransferLoan { from, to, currency_id: c });
        proof {
            assert(forall|c2: CurrencyId, w2: AccountId| #[trigger] self.collateral(c2, w2) == l_moved.collateral(c2, w2));
            assert(forall|c2: CurrencyId, w2: AccountId| #[trigger] self.debit(c2, w2) == l_moved.debit(c2, w2));
            assert(forall|c2: CurrencyId| #[trigger] self.total_collateral(c2) == l_moved.total_collateral(c2));
            assert(forall|c2: CurrencyId| #[trigger] self.total_debit(c2) == l_moved.total_debit(c2));
        }
        Ok(())
    }

    /// The user-facing adjustment of `who`'s position in `c`: collateral
    /// moves between `who` and the escrow account, stable currency is
    /// minted to or burnt from `who`, the position is updated, and the risk
    /// manager must accept the result. All of it happens, or none.
    pub fn adjust_position<R: RiskManager>(
        &mut self,
        tokens: &mut Tokens,
        treasury: &mut CdpTreasury,
        risk: &R,
        who: AccountId,
        c: CurrencyId,
        collateral_adjustment: Amount,
        debit_adjustment: Amount,
    ) -> (r: DispatchResult)
        requires
            old(self).wf(),
            old(tokens).wf(),
        ensures
            final(self).wf(),
            final(tokens).wf(),
            old(treasury).same_config(final(treasury)),
            final(treasury).debit() == old(treasury).debit(),
            r == adjust_position_check(
                old(self),
                old(tokens),
                old(treasury),
                risk,
                who,
                c,
                collateral_adjustment as int,
                debit_adjustment as int,
            ),
            r is Ok ==> loan_updated(old(self), final(self), who, c, collateral_adjustment as int, debit_adjustment as int)
                && balances_adjusted(
                old(tokens),
                final(tokens),
                old(treasury).stable(),
                c,
                who,
                old(self).account(),
                collateral_adjustment as int,
                debit_adjustment as int,
            ) && final(self).event_log() == old(self).event_log().push(
                Event::PositionUpdated { owner: who, collateral_type: c, collateral_adjustment, debit_adjustment },
            ),
            r is Err ==> old(self).same_loans(final(self)) && old(tokens).same_balances(final(tokens)),
    {
        let ghost k0 = *tokens;
        let ghost l0 = *self;
        let saved_tokens = tokens.snapshot();
        let saved_loans = self.snapshot();
        let escrow = self.module_account;
        let dc = magnitude(collateral_adjustment);
        let dd = magnitude(debit_adjustment);
        if collateral_adjustment > 0 {
            if let Err(e) = tokens.transfer(c, who, escrow, dc) {
                return Err(e);
            }
        } else if collateral_adjustment < 0 {
            if let Err(e) = tokens.transfer(c, escrow, who, dc) {
                return Err(e);
            }
        }
        let ghost k1 = *tokens;
        proof {
            assert forall|c2: CurrencyId, w2: AccountId| #[trigger] k1.free(c2, w2) == k0.free(c2, w2)
                + transfer_delta(c, who, escrow, collateral_adjustment as int, c2, w2) by {}
            assert(collateral_move_check(&k0, c, who, escrow, collateral_adjustment as int) is Ok);
        }
        let minted = if debit_adjustment > 0 {
            treasury.issue_debit(tokens, who, dd, true)
        } else if debit_adjustment < 0 {
            treasury.burn_debit(tokens, who, dd)
        } else {
            Ok(())
        };
        if let Err(e) = minted {
            *tokens = saved_tokens;
            return Err(e);
        }
        proof {
            assert(debit_move_check(&k0, treasury.stable(), c, who, escrow, collateral_adjustment as int, debit_adjustment as int) is Ok);
            assert forall|c2: CurrencyId, w2: AccountId| #[trigger] tokens.free(c2, w2) == k0.free(c2, w2)
                + transfer_delta(c, who, escrow, collateral_adjustment as int, c2, w2)
                + if c2 == treasury.stable() && w2 == who { debit_adjustment as int } else { 0 } by {
                assert(k1.free(c2, w2) == k0.free(c2, w2) + transfer_delta(c, who, escrow, collateral_adjustment as int, c2, w2));
            }
        }
        if let Err(e) = self.update_loan(who, c, collateral_adjustment, debit_adjustment) {
            *tokens = saved_tokens;
            return Err(e);
        }
        proof {
            assert(update_loan_check(&l0, who, c, collateral_adjustment as int, debit_adjustment as int) is Ok);
        }
        if debit_adjustment > 0 {
            let total = self.total_positions(c);
            assert(total.debit == (l0.total_debit(c) + debit_adjustment) as u128);
            if let Err(e) = risk.check_debit_cap(c, total.debit) {
                proof {
                    lemma_same_rows_wf(old(self), &saved_loans);
                }
                *tokens = saved_tokens;
                *self = saved_loans;
                return Err(e);
            }
        }
        let p = self.positions(c, who);
        assert(p.collateral == (l0.collateral(c, who) + collateral_adjustment) as u128);
        assert(p.debit == (l0.debit(c, who) + debit_adjustment) as u128);
        let verdict = risk.check_position_valid(c, p.collateral, p.debit, collateral_adjustment < 0 || debit_adjustment > 0);
        if let Err(e) = verdict {
            proof {
                lemma_same_rows_wf(old(self), &saved_loans);
            }
            *tokens = saved_tokens;
            *self = saved_loans;
            return Err(e);
        }
        let ghost l_updated = *self;
        self.push_event(Event::PositionUpdated { owner: who, collateral_type: c, collateral_adjustment, debit_adjustment });
        proof {
            assert(forall|c2: CurrencyId, w2: AccountId| #[trigger] self.collateral(c2, w2) == l_updated.collateral(c2, w2));
            assert(forall|c2: CurrencyId, w2: AccountId| #[trigger] self.debit(c2, w2) == l_updated.debit(c2, w2));
            assert(forall|c2: CurrencyId, w2: AccountId| #[trigger] self.has_position(c2, w2) == l_updated.has_position(c2, w2));
            assert(forall|w2: AccountId| #[trigger] self.consumers_spec(w2) == l_updated.consumers_spec(w2));
            assert(forall|c2: CurrencyId| #[trigger] self.total_collateral(c2) == l_updated.total_collateral(c2));
            assert(forall|c2: CurrencyId| #[trigger] self.total_debit(c2) == l_updated.total_debit(c2));
        }
        verdict
    }

    /// Liquidation: moves `collateral_confiscate` of `who`'s collateral `c`
    /// from the escrow account to the treasury, hands `debit_decrease` of
    /// debt to the treasury's debit pool, and takes both off the position.
    /// All of it happens, or none.
    pub fn confiscate_collateral_and_debit(
        &mut self,
        tokens: &mut Tokens,
        treasury: &mut CdpTreasury,
        who: AccountId,
        c: CurrencyId,
        collateral_confiscate: Balance,
        debit_decrease: Balance,
    ) -> (r: DispatchResult)
        requires
            old(self).wf(),
            old(tokens).wf(),
        ensures
            final(self).wf(),
            final(tokens).wf(),
            old(treasury).same_config(final(treasury)),
            r == confiscate_check(old(self), old(tokens), old(treasury), who, c, collateral_confiscate as int, debit_decrease as int),
            r is Ok ==> loan_updated(old(self), final(self), who, c, -(collateral_confiscate as int), -(debit_decrease as int))
                && transferred(old(tokens), final(tokens), c, old(self).account(), old(treasury).account(), collateral_confiscate as int)
                && final(treasury).debit() == old(treasury).debit() + debit_decrease
                && final(self).event_log() == old(self).event_log().push(
                Event::ConfiscateCollateralAndDebit {
                    owner: who,
                    collateral_type: c,
                    confiscated_collateral_amount: collateral_confiscate,
                    deduct_debit_amount: debit_decrease,
                },
            ),
            r is Err ==> old(self).same_loans(final(self)) && old(tokens).same_balances(final(tokens))
                && final(treasury).debit() == old(treasury).debit(),
    {
        let dc = match amount_try_from_balance(collateral_confiscate) {
            Ok(v) => v,
            Err(e) => return Err(e),
        };
        let dd = match amount_try_from_balance(debit_decrease) {
            Ok(v) => v,
            Err(e) => return Err(e),
        };
        let saved_tokens = tokens.snapshot();
        let saved_debit = treasury.debit_pool();
        if let Err(e) = treasury.deposit_collateral(tokens, self.module_account, c, collateral_confiscate) {
            return Err(e);
        }
        if let Err(e) = treasury.on_system_debit(debit_decrease) {
            *tokens = saved_tokens;
            return Err(e);
        }
        let res = self.update_loan(who, c, -dc, -dd);
        if let Err(e) = res {
            *tokens = saved_tokens;
            treasury.restore_debit_pool(saved_debit);
            return Err(e);
        }
        let ghost l_updated = *self;
        self.push_event(
            Event::ConfiscateCollateralAndDebit {
                owner: who,
                collateral_type: c,
                confiscated_collateral_amount: collateral_confiscate,
                deduct_debit_amount: debit_decrease,
            },
        );
        proof {
            assert(forall|c2: CurrencyId, w2: AccountId| #[trigger] self.collateral(c2, w2) == l_updated.collateral(c2, w2));
            assert(forall|c2: CurrencyId, w2: AccountId| #[trigger] self.debit(c2, w2) == l_updated.debit(c2, w2));
            assert(forall|c2: CurrencyId, w2: AccountId| #[trigger] self.has_position(c2, w2) == l_updated.has_position(c2, w2));
            assert(forall|w2: AccountId| #[trigger] self.consumers_spec(w2) == l_updated.consumers_spec(w2));
            assert(forall|c2: CurrencyId| #[trigger] self.total_collateral(c2) == l_updated.total_collateral(c2));
            assert(forall|c2: CurrencyId| #[trigger] self.total_debit(c2) == l_updated.total_debit(c2));
        }
        res
    }
}

/// The totals of each collateral type equal the sum of its positions: the
/// sum over the rows of that type, each row being one owner's position.
pub proof fn lemma_conservation(l: &Loans, c: CurrencyId)
    requires
        l.wf(),
    ensures
        l.total_collateral(c) == l.rows_collateral(c),
        l.total_debit(c) == l.rows_debit(c),
        forall|i: int| 0 <= i < l.rows().len() && (#[trigger] l.rows()[i]).currency_id == c ==> l.collateral(c, l.rows()[i].owner)
            == l.rows()[i].collateral && l.debit(c, l.rows()[i].owner) == l.rows()[i].debit,
{
    assert(l.total_collateral(c) == l.rows_collateral(c));
    assert forall|i: int| 0 <= i < l.rows().len() && (#[trigger] l.rows()[i]).currency_id == c implies l.collateral(c, l.rows()[i].owner)
        == l.rows()[i].collateral && l.debit(c, l.rows()[i].owner) == l.rows()[i].debit by {
        l.lemma_row_values(i);
    }
}

/// Where `who` has a row in `c` it is the one at some index; where not,
/// the position is zero.
proof fn lemma_position_row(l: &Loans, c: CurrencyId, who: AccountId)
    requires
        rows_ok(l.rows()),
    ensures
        l.has_position(c, who) ==> exists|i: int| 0 <= i < l.rows().len() && is_key(#[trigger] l.rows()[i], c, who),
        !l.has_position(c, who) ==> l.collateral(c, who) == 0 && l.debit(c, who) == 0,
        l.has_position(c, who) ==> l.collateral(c, who) != 0 || l.debit(c, who) != 0,
        0 <= l.collateral(c, who) <= u128::MAX,
        0 <= l.debit(c, who) <= u128::MAX,
{
    if exists|i: int| 0 <= i < l.rows().len() && is_key(#[trigger] l.rows()[i], c, who) {
        let i = choose|i: int| 0 <= i < l.rows().len() && is_key(#[trigger] l.rows()[i], c, who);
        l.lemma_row_values(i);
    } else {
        l.lemma_no_row(c, who);
    }
}

/// Two owners' positions in one collateral type together stay within the
/// type's totals.
proof fn lemma_two_positions_within_total(l: &Loans, c: CurrencyId, a: AccountId, b: AccountId)
    requires
        l.wf(),
        a != b,
    ensures
        l.collateral(c, a) + l.collateral(c, b) <= l.total_collateral(c),
        l.debit(c, a) + l.debit(c, b) <= l.total_debit(c),
{
    let s = l.rows();
    let hc = |r: PositionRow| collateral_at(c, a)(r) + collateral_at(c, b)(r);
    let hd = |r: PositionRow| debit_at(c, a)(r) + debit_at(c, b)(r);
    lemma_sum_add(s, collateral_at(c, a), collateral_at(c, b), hc);
    lemma_sum_add(s, debit_at(c, a), debit_at(c, b), hd);
    lemma_sum_le(s, hc, collateral_in(c));
    lemma_sum_le(s, hd, debit_in(c));
    assert(l.total_collateral(c) == l.rows_collateral(c));
}

/// No position and no total is ever below zero, or above the largest
/// balance.
pub proof fn lemma_no_negative_balances(l: &Loans, c: CurrencyId, who: AccountId)
    requires
        l.wf(),
    ensures
        0 <= l.collateral(c, who) <= u128::MAX,
        0 <= l.debit(c, who) <= u128::MAX,
        0 <= l.total_collateral(c) <= u128::MAX,
        0 <= l.total_debit(c) <= u128::MAX,
{
    lemma_position_row(l, c, who);
    if exists|i: int| 0 <= i < l.total_rows().len() && (#[trigger] l.total_rows()[i]).currency_id == c {
        let i = choose|i: int| 0 <= i < l.total_rows().len() && (#[trigger] l.total_rows()[i]).currency_id == c;
        l.lemma_total_of_row(i);
    } else {
        lemma_sum_zero(l.total_rows(), total_collateral_in(c));
        lemma_sum_zero(l.total_rows(), total_debit_in(c));
    }
}

/// Storage holds a row for a position exactly when the position is not
/// empty: a position with both fields zero is absent.
pub proof fn lemma_row_lifecycle(l: &Loans, c: CurrencyId, who: AccountId)
    requires
        l.wf(),
    ensures
        l.has_position(c, who) <==> (l.collateral(c, who) != 0 || l.debit(c, who) != 0),
{
    lemma_position_row(l, c, who);
}

/// Opening a position and then closing it again leaves the owner's
/// reference count where it was; opening a non-empty one raises it by one
/// in between.
pub proof fn lemma_open_close_keeps_consumers(
    l0: &Loans,
    l1: &Loans,
    l2: &Loans,
    who: AccountId,
    c: CurrencyId,
    dc: int,
    dd: int,
)
    requires
        l0.wf(),
        !l0.has_position(c, who),
        loan_updated(l0, l1, who, c, dc, dd),
        loan_updated(l1, l2, who, c, -dc, -dd),
    ensures
        dc != 0 || dd != 0 ==> l1.has_position(c, who) && l1.consumers_spec(who) == l0.consumers_spec(who) + 1,
        !l2.has_position(c, who),
        l2.consumers_spec(who) == l0.consumers_spec(who),
{
    lemma_position_row(l0, c, who);
    assert(l1.collateral(c, who) == dc && l1.debit(c, who) == dd);
    assert(l2.collateral(c, who) == 0 && l2.debit(c, who) == 0);
}

/// Opening and closing a position twice in a row leaves the owner's
/// reference count where it was.
pub proof fn lemma_open_close_twice_keeps_consumers(
    l0: &Loans,
    l1: &Loans,
    l2: &Loans,
    l3: &Loans,
    l4: &Loans,
    who: AccountId,
    c: CurrencyId,
    dc: int,
    dd: int,
)
    requires
        l0.wf(),
        l2.wf(),
        !l0.has_position(c, who),
        loan_updated(l0, l1, who, c, dc, dd),
        loan_updated(l1, l2, who, c, -dc, -dd),
        loan_updated(l2, l3, who, c, dc, dd),
        loan_updated(l3, l4, who, c, -dc, -dd),
    ensures
        l4.consumers_spec(who) == l0.consumers_spec(who),
        !l4.has_position(c, who),
{
    lemma_open_close_keeps_consumers(l0, l1, l2, who, c, dc, dd);
    lemma_open_close_keeps_consumers(l2, l3, l4, who, c, dc, dd);
}

} // verus!
