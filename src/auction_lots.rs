//! How a quantity of collateral, and the stable amount it should fetch, are
//! cut into auction lots.
use crate::sums::{lemma_sum_take, sum_of};
use crate::types::Balance;
use vstd::arithmetic::div_mod::lemma_fundamental_div_mod;
use vstd::prelude::*;

verus! {

/// The number of lots: one unless splitting is asked for, allowed and
/// needed; otherwise the lots of the expected size that cover `amount`,
/// capped at `max_auctions_count`.
pub open spec fn lots_count_spec(amount: int, expected_size: int, max_auctions_count: int, splited: bool) -> int {
    if !splited || max_auctions_count == 0 || expected_size == 0 || amount <= expected_size {
        1
    } else {
        let ceil = amount / expected_size + if amount % expected_size != 0 { 1int } else { 0int };
        if ceil < max_auctions_count { ceil } else { max_auctions_count }
    }
}

/// The `i`-th of `n` lots: the floored share, and for the last lot whatever
/// the others left.
pub open spec fn lot_spec(amount: int, target: int, n: int, i: int) -> (int, int) {
    if i < n - 1 {
        (amount / n, target / n)
    } else {
        (amount - (n - 1) * (amount / n), target - (n - 1) * (target / n))
    }
}

/// All `n` lots.
pub open spec fn lots_spec(amount: int, target: int, n: int) -> Seq<(int, int)> {
    Seq::new(n as nat, |i: int| lot_spec(amount, target, n, i))
}

pub open spec fn lot_amount() -> spec_fn((int, int)) -> int {
    |l: (int, int)| l.0
}

pub open spec fn lot_target() -> spec_fn((int, int)) -> int {
    |l: (int, int)| l.1
}

proof fn lemma_share_fits(a: int, n: int, k: int)
    requires
        a >= 0,
        n >= 1,
        0 <= k <= n,
    ensures
        0 <= k * (a / n) <= a,
        a / n >= 0,
{
    lemma_fundamental_div_mod(a, n);
    assert(a / n >= 0) by (nonlinear_arith)
        requires a >= 0, n >= 1, a == n * (a / n) + a % n, 0 <= a % n < n;
    assert(0 <= k * (a / n) <= a) by (nonlinear_arith)
        requires a >= 0, n >= 1, a == n * (a / n) + a % n, 0 <= a % n, 0 <= k <= n, a / n >= 0;
}

proof fn lemma_prefix_sums(amount: int, target: int, n: int, k: int)
    requires
        n >= 1,
        0 <= k <= n - 1,
    ensures
        sum_of(lots_spec(amount, target, n).take(k), lot_amount()) == k * (amount / n),
        sum_of(lots_spec(amount, target, n).take(k), lot_target()) == k * (target / n),
    decreases k,
{
    let s = lots_spec(amount, target, n);
    if k == 0 {
        assert(s.take(0) =~= Seq::<(int, int)>::empty());
    } else {
        lemma_prefix_sums(amount, target, n, k - 1);
        lemma_sum_take(s, k - 1, lot_amount());
        lemma_sum_take(s, k - 1, lot_target());
        assert(k * (amount / n) == (k - 1) * (amount / n) + amount / n) by (nonlinear_arith);
        assert(k * (target / n) == (k - 1) * (target / n) + target / n) by (nonlinear_arith);
    }
}

/// However the lots are counted, the lots' collateral adds up to `amount`
/// and their targets add up to `target`; and where a cap on the number of
/// auctions is set, no more lots than the cap are made.
pub proof fn lemma_lots_conserve(amount: Balance, target: Balance, expected_size: Balance, max_auctions_count: u32, splited: bool)
    ensures
        ({
            let n = lots_count_spec(amount as int, expected_size as int, max_auctions_count as int, splited);
            &&& n >= 1
            &&& sum_of(lots_spec(amount as int, target as int, n), lot_amount()) == amount
            &&& sum_of(lots_spec(amount as int, target as int, n), lot_target()) == target
            &&& max_auctions_count > 0 ==> n <= max_auctions_count
        }),
{
    let n = lots_count_spec(amount as int, expected_size as int, max_auctions_count as int, splited);
    lemma_lots_count_bounds(amount, expected_size, max_auctions_count, splited);
    let s = lots_spec(amount as int, target as int, n);
    lemma_prefix_sums(amount as int, target as int, n, n - 1);
    lemma_sum_take(s, n - 1, lot_amount());
    lemma_sum_take(s, n - 1, lot_target());
    assert(s.take(n) =~= s);
}

proof fn lemma_lots_count_bounds(amount: Balance, expected_size: Balance, max_auctions_count: u32, splited: bool)
    ensures
        ({
            let n = lots_count_spec(amount as int, expected_size as int, max_auctions_count as int, splited);
            &&& 1 <= n
            &&& max_auctions_count > 0 ==> n <= max_auctions_count
        }),
{
    let a = amount as int;
    let e = expected_size as int;
    if splited && max_auctions_count != 0 && e != 0 && a > e {
        lemma_fundamental_div_mod(a, e);
        assert(a / e >= 1) by (nonlinear_arith)
            requires a > e, e >= 1, a == e * (a / e) + a % e, 0 <= a % e < e;
    }
}

/// The lots of collateral and target for an auction of `amount` collateral
/// expected to fetch `target`, in the order they are offered.
pub fn collateral_auction_lots(amount: Balance, target: Balance, expected_size: Balance, max_auctions_count: u32, splited: bool) -> (lots: Vec<(Balance, Balance)>)
    ensures
        ({
            let n = lots_count_spec(amount as int, expected_size as int, max_auctions_count as int, splited);
            &&& lots@.len() == n
            &&& forall|i: int| 0 <= i < n ==> (#[trigger] lots@[i]).0 as int == lot_spec(amount as int, target as int, n, i).0
                && lots@[i].1 as int == lot_spec(amount as int, target as int, n, i).1
        }),
{
    let ghost n_spec = lots_count_spec(amount as int, expected_size as int, max_auctions_count as int, splited);
    proof {
        lemma_lots_count_bounds(amount, expected_size, max_auctions_count, splited);
    }
    let max_count = max_auctions_count as u128;
    let n: u128 = if !splited || max_count == 0 || expected_size == 0 || amount <= expected_size {
        1
    } else {
        let whole = amount / expected_size;
        if whole >= max_count {
            max_count
        } else if amount % expected_size != 0 {
            whole + 1
        } else {
            whole
        }
    };
    assert(n == n_spec);
    let per_lot_amount = amount / n;
    let per_lot_target = target / n;
    let mut lots: Vec<(Balance, Balance)> = Vec::new();
    let mut rest_amount = amount;
    let mut rest_target = target;
    let mut i: u128 = 0;
    while i + 1 < n
        invariant
            n == n_spec,
            1 <= n <= u32::MAX || n == 1,
            per_lot_amount == amount / n,
            per_lot_target == target / n,
            i < n,
            lots@.len() == i,
            rest_amount == amount - i * per_lot_amount,
            rest_target == target - i * per_lot_target,
            forall|j: int| 0 <= j < i ==> (#[trigger] lots@[j]).0 as int == lot_spec(amount as int, target as int, n as int, j).0
                && lots@[j].1 as int == lot_spec(amount as int, target as int, n as int, j).1,
        decreases n - i,
    {
        proof {
            lemma_share_fits(amount as int, n as int, (i + 1) as int);
            lemma_share_fits(target as int, n as int, (i + 1) as int);
            assert((i + 1) * per_lot_amount == i * per_lot_amount + per_lot_amount) by (nonlinear_arith);
            assert((i + 1) * per_lot_target == i * per_lot_target + per_lot_target) by (nonlinear_arith);
        }
        lots.push((per_lot_amount, per_lot_target));
        rest_amount = rest_amount - per_lot_amount;
        rest_target = rest_target - per_lot_target;
        i = i + 1;
    }
    lots.push((rest_amount, rest_target));
    lots
}

} // verus!
