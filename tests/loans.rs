use cdp_ledger::loans::{Event, Loans};
use cdp_ledger::mocks::MockRiskManager;
use cdp_ledger::tokens::Tokens;
use cdp_ledger::treasury::CdpTreasury;
use cdp_ledger::types::{AccountId, ArithmeticError, Balance, CurrencyId, DispatchError, TokenError, TokenSymbol};

const ALICE: AccountId = 1;
const BOB: AccountId = 2;
const LOANS_ACCOUNT: AccountId = 0x7365_742f_6c6f_616e;
const TREASURY_ACCOUNT: AccountId = 0x7365_742f_6364_7074;
const SETUSD: CurrencyId = CurrencyId::Token(TokenSymbol::SETUSD);
const DNAR: CurrencyId = CurrencyId::Token(TokenSymbol::DNAR);
const SERP: CurrencyId = CurrencyId::Token(TokenSymbol::SERP);

struct Env {
    tokens: Tokens,
    treasury: CdpTreasury,
    loans: Loans,
    risk: MockRiskManager,
}

fn build() -> Env {
    let mut tokens = Tokens::new(100);
    let endowed: Vec<(AccountId, CurrencyId, Balance)> =
        vec![(ALICE, DNAR, 1000), (ALICE, SERP, 1000), (BOB, DNAR, 1000), (BOB, SERP, 1000)];
    for (who, c, amount) in endowed {
        tokens.deposit(c, who, amount).unwrap();
    }
    Env {
        tokens,
        treasury: CdpTreasury::new(TREASURY_ACCOUNT, SETUSD, 10_000, vec![], &vec![]),
        loans: Loans::new(LOANS_ACCOUNT),
        risk: MockRiskManager,
    }
}

fn adjust(env: &mut Env, who: AccountId, c: CurrencyId, dc: i128, dd: i128) -> Result<(), DispatchError> {
    env.loans.adjust_position(&mut env.tokens, &mut env.treasury, &env.risk, who, c, dc, dd)
}

#[test]
fn debits_key() {
    let mut env = build();
    assert_eq!(env.loans.positions(SERP, ALICE).debit, 0);
    assert_eq!(adjust(&mut env, ALICE, SERP, 200, 200), Ok(()));
    assert_eq!(env.loans.positions(SERP, ALICE).debit, 200);
    assert_eq!(env.tokens.free_balance(SERP, LOANS_ACCOUNT), 200);
    assert_eq!(adjust(&mut env, ALICE, SERP, -100, -100), Ok(()));
    assert_eq!(env.loans.positions(SERP, ALICE).debit, 100);
}

#[test]
fn check_update_loan_underflow_work() {
    let mut env = build();
    // collateral underflow
    assert_eq!(
        env.loans.update_loan(ALICE, SERP, -100, 0),
        Err(DispatchError::Arithmetic(ArithmeticError::Underflow))
    );
    // debit underflow
    assert_eq!(
        env.loans.update_loan(ALICE, SERP, 0, -100),
        Err(DispatchError::Arithmetic(ArithmeticError::Underflow))
    );
    assert_eq!(env.loans.total_positions(SERP).collateral, 0);
    assert!(!env.loans.contains_position(SERP, ALICE));
}

#[test]
fn adjust_position_should_work() {
    let mut env = build();
    assert_eq!(env.tokens.free_balance(SERP, ALICE), 1000);

    // balance too low
    assert_eq!(adjust(&mut env, ALICE, SERP, 2000, 0), Err(DispatchError::Token(TokenError::BalanceTooLow)));

    // mock can't pass liquidation ratio check
    assert_eq!(
        adjust(&mut env, ALICE, DNAR, 500, 0),
        Err(DispatchError::Other("mock below liquidation ratio error"))
    );

    // mock can't pass required ratio check
    assert_eq!(
        adjust(&mut env, ALICE, DNAR, 500, 1),
        Err(DispatchError::Other("mock below required collateral ratio error"))
    );

    // mock exceed debit value cap
    assert_eq!(
        adjust(&mut env, ALICE, SERP, 1000, 1000),
        Err(DispatchError::Other("mock exceed debit value cap error"))
    );

    // failed because ED of collateral
    assert_eq!(adjust(&mut env, ALICE, SERP, 99, 0), Err(DispatchError::Token(TokenError::ExistentialDeposit)));

    assert_eq!(env.tokens.free_balance(SERP, ALICE), 1000);
    assert_eq!(env.tokens.free_balance(SERP, LOANS_ACCOUNT), 0);
    assert_eq!(env.loans.total_positions(SERP).debit, 0);
    assert_eq!(env.loans.total_positions(SERP).collateral, 0);
    assert_eq!(env.loans.positions(SERP, ALICE).debit, 0);
    assert_eq!(env.loans.positions(SERP, ALICE).collateral, 0);
    assert_eq!(env.tokens.free_balance(SETUSD, ALICE), 0);

    // success
    assert_eq!(adjust(&mut env, ALICE, SERP, 500, 300), Ok(()));
    assert_eq!(env.tokens.free_balance(SERP, ALICE), 500);
    assert_eq!(env.tokens.free_balance(SERP, LOANS_ACCOUNT), 500);
    assert_eq!(env.loans.total_positions(SERP).debit, 300);
    assert_eq!(env.loans.total_positions(SERP).collateral, 500);
    assert_eq!(env.loans.positions(SERP, ALICE).debit, 300);
    assert_eq!(env.loans.positions(SERP, ALICE).collateral, 500);
    // the debit is minted one for one
    assert_eq!(env.tokens.free_balance(SETUSD, ALICE), 300);
    assert!(env.loans.events().contains(&Event::PositionUpdated {
        owner: ALICE,
        collateral_type: SERP,
        collateral_adjustment: 500,
        debit_adjustment: 300,
    }));

    // collateral_adjustment is negatives
    assert_eq!(env.tokens.free_balance(SERP, LOANS_ACCOUNT), 500);
    assert_eq!(adjust(&mut env, ALICE, SERP, -500, 0), Ok(()));
    assert_eq!(env.tokens.free_balance(SERP, LOANS_ACCOUNT), 0);
}

#[test]
fn update_loan_should_work() {
    let mut env = build();
    assert_eq!(env.tokens.free_balance(SERP, LOANS_ACCOUNT), 0);
    assert_eq!(env.tokens.free_balance(SERP, ALICE), 1000);
    assert_eq!(env.loans.total_positions(SERP).debit, 0);
    assert_eq!(env.loans.total_positions(SERP).collateral, 0);
    assert_eq!(env.loans.positions(SERP, ALICE).debit, 0);
    assert_eq!(env.loans.positions(SERP, ALICE).collateral, 0);
    assert!(!env.loans.contains_position(SERP, ALICE));

    let alice_ref_count_0 = env.loans.consumers(ALICE);

    assert_eq!(env.loans.update_loan(ALICE, SERP, 3000, 2000), Ok(()));

    // just update records
    assert_eq!(env.loans.total_positions(SERP).debit, 2000);
    assert_eq!(env.loans.total_positions(SERP).collateral, 3000);
    assert_eq!(env.loans.positions(SERP, ALICE).debit, 2000);
    assert_eq!(env.loans.positions(SERP, ALICE).collateral, 3000);

    // increase ref count when open new position
    let alice_ref_count_1 = env.loans.consumers(ALICE);
    assert_eq!(alice_ref_count_1, alice_ref_count_0 + 1);

    // balances are not touched
    assert_eq!(env.tokens.free_balance(SERP, LOANS_ACCOUNT), 0);
    assert_eq!(env.tokens.free_balance(SERP, ALICE), 1000);

    // should remove position storage if zero
    assert!(env.loans.contains_position(SERP, ALICE));
    assert_eq!(env.loans.update_loan(ALICE, SERP, -3000, -2000), Ok(()));
    assert_eq!(env.loans.positions(SERP, ALICE).debit, 0);
    assert_eq!(env.loans.positions(SERP, ALICE).collateral, 0);
    assert!(!env.loans.contains_position(SERP, ALICE));

    // decrease ref count after remove position
    let alice_ref_count_2 = env.loans.consumers(ALICE);
    assert_eq!(alice_ref_count_2, alice_ref_count_1 - 1);
}

#[test]
fn transfer_loan_should_work() {
    let mut env = build();
    assert_eq!(env.loans.update_loan(ALICE, SERP, 400, 500), Ok(()));
    assert_eq!(env.loans.update_loan(BOB, SERP, 100, 600), Ok(()));
    assert_eq!(env.loans.positions(SERP, ALICE).debit, 500);
    assert_eq!(env.loans.positions(SERP, ALICE).collateral, 400);
    assert_eq!(env.loans.positions(SERP, BOB).debit, 600);
    assert_eq!(env.loans.positions(SERP, BOB).collateral, 100);

    assert_eq!(env.loans.transfer_loan(ALICE, BOB, SERP), Ok(()));
    assert_eq!(env.loans.positions(SERP, ALICE).debit, 0);
    assert_eq!(env.loans.positions(SERP, ALICE).collateral, 0);
    assert_eq!(env.loans.positions(SERP, BOB).debit, 1100);
    assert_eq!(env.loans.positions(SERP, BOB).collateral, 500);
    assert_eq!(env.loans.last_event(), Some(Event::TransferLoan { from: ALICE, to: BOB, currency_id: SERP }));
}

#[test]
fn confiscate_collateral_and_debit_work() {
    let mut env = build();
    assert_eq!(env.loans.update_loan(BOB, SERP, 5000, 1000), Ok(()));
    assert_eq!(env.tokens.free_balance(SERP, LOANS_ACCOUNT), 0);

    // have no sufficient balance
    assert!(env
        .loans
        .confiscate_collateral_and_debit(&mut env.tokens, &mut env.treasury, BOB, SERP, 5000, 1000)
        .is_err());

    assert_eq!(adjust(&mut env, ALICE, SERP, 500, 300), Ok(()));
    assert_eq!(env.treasury.total_collaterals(&env.tokens, SERP), 0);
    assert_eq!(env.treasury.debit_pool(), 0);
    assert_eq!(env.loans.positions(SERP, ALICE).debit, 300);
    assert_eq!(env.loans.positions(SERP, ALICE).collateral, 500);

    assert_eq!(
        env.loans.confiscate_collateral_and_debit(&mut env.tokens, &mut env.treasury, ALICE, SERP, 300, 200),
        Ok(())
    );
    assert_eq!(env.treasury.total_collaterals(&env.tokens, SERP), 300);
    // the deducted debit goes to the debit pool one for one
    assert_eq!(env.treasury.debit_pool(), 200);
    assert_eq!(env.loans.positions(SERP, ALICE).debit, 100);
    assert_eq!(env.loans.positions(SERP, ALICE).collateral, 200);
    assert_eq!(
        env.loans.last_event(),
        Some(Event::ConfiscateCollateralAndDebit {
            owner: ALICE,
            collateral_type: SERP,
            confiscated_collateral_amount: 300,
            deduct_debit_amount: 200,
        })
    );
}
