use cdp_ledger::auction_lots::collateral_auction_lots;
use cdp_ledger::loans::Loans;
use cdp_ledger::ratio::proportion_of;
use cdp_ledger::mocks::{mock_shutdown, EmergencyShutdown, MockAuctionManager, MockEmergencyShutdown, MockPriceSource, MockRiskManager, MockSerpTreasury, PriceProvider, PRICE_ONE};
use cdp_ledger::tokens::Tokens;
use cdp_ledger::traits::CollateralAuction;
use cdp_ledger::treasury::{CdpTreasury, TreasuryEvent};
use cdp_ledger::types::{AccountId, ArithmeticError, CurrencyId, DispatchError, Error, SwapLimit, TokenError, TokenSymbol};

const ALICE: AccountId = 1;
const BOB: AccountId = 2;
const LOANS_ACCOUNT: AccountId = 0x7365_742f_6c6f_616e;
const TREASURY_ACCOUNT: AccountId = 0x7365_742f_6364_7074;
const SETUSD: CurrencyId = CurrencyId::Token(TokenSymbol::SETUSD);
const DNAR: CurrencyId = CurrencyId::Token(TokenSymbol::DNAR);
const SERP: CurrencyId = CurrencyId::Token(TokenSymbol::SERP);

fn treasury_with(max_auctions: u32, sizes: Vec<(CurrencyId, u128)>) -> CdpTreasury {
    CdpTreasury::new(TREASURY_ACCOUNT, SETUSD, max_auctions, vec![vec![SETUSD]], &sizes)
}

fn tokens_with(rows: Vec<(AccountId, CurrencyId, u128)>) -> Tokens {
    let mut tokens = Tokens::new(1);
    for (who, c, amount) in rows {
        tokens.deposit(c, who, amount).unwrap();
    }
    tokens
}

fn lot_sums(auctions: &[CollateralAuction]) -> (u128, u128) {
    auctions.iter().fold((0, 0), |(a, t), x| (a + x.amount, t + x.target))
}

#[test]
fn open_position_mints_its_debit() {
    let mut tokens = tokens_with(vec![(ALICE, SERP, 1000)]);
    let mut treasury = treasury_with(10, vec![]);
    let mut loans = Loans::new(LOANS_ACCOUNT);
    assert_eq!(loans.adjust_position(&mut tokens, &mut treasury, &MockRiskManager, ALICE, SERP, 500, 300), Ok(()));
    assert_eq!(loans.positions(SERP, ALICE).debit, 300);
    assert_eq!(loans.total_positions(SERP).debit, 300);
    assert_eq!(tokens.free_balance(SETUSD, ALICE), 300);
    assert_eq!(tokens.total_issuance(SETUSD), 300);
}

#[test]
fn transfer_merges_into_existing_position() {
    let mut loans = Loans::new(LOANS_ACCOUNT);
    loans.update_loan(ALICE, SERP, 400, 500).unwrap();
    loans.update_loan(BOB, SERP, 100, 600).unwrap();
    assert_eq!(loans.consumers(ALICE), 1);
    assert_eq!(loans.transfer_loan(ALICE, BOB, SERP), Ok(()));
    assert!(!loans.contains_position(SERP, ALICE));
    assert_eq!(loans.consumers(ALICE), 0);
    assert_eq!(loans.positions(SERP, BOB).collateral, 500);
    assert_eq!(loans.positions(SERP, BOB).debit, 1100);
    assert_eq!(loans.total_positions(SERP).collateral, 500);
    assert_eq!(loans.total_positions(SERP).debit, 1100);
}

#[test]
fn confiscation_moves_collateral_and_debit() {
    let mut tokens = tokens_with(vec![(ALICE, SERP, 1000)]);
    let mut treasury = treasury_with(10, vec![]);
    let mut loans = Loans::new(LOANS_ACCOUNT);
    loans.adjust_position(&mut tokens, &mut treasury, &MockRiskManager, ALICE, SERP, 500, 300).unwrap();
    assert_eq!(loans.confiscate_collateral_and_debit(&mut tokens, &mut treasury, ALICE, SERP, 300, 200), Ok(()));
    assert_eq!(loans.positions(SERP, ALICE).collateral, 200);
    assert_eq!(loans.positions(SERP, ALICE).debit, 100);
    assert_eq!(treasury.total_collaterals(&tokens, SERP), 300);
    assert_eq!(tokens.free_balance(SERP, LOANS_ACCOUNT), 200);
    assert_eq!(treasury.debit_pool(), 200);
}

#[test]
fn confiscation_rejects_amounts_beyond_signed_range() {
    let mut tokens = tokens_with(vec![]);
    let mut treasury = treasury_with(10, vec![]);
    let mut loans = Loans::new(LOANS_ACCOUNT);
    let too_big = (i128::MAX as u128) + 1;
    assert_eq!(
        loans.confiscate_collateral_and_debit(&mut tokens, &mut treasury, ALICE, SERP, too_big, 0),
        Err(DispatchError::AmountConvertFailed)
    );
}

#[test]
fn failed_confiscation_leaves_everything() {
    let mut tokens = tokens_with(vec![(ALICE, SERP, 1000)]);
    let mut treasury = treasury_with(10, vec![]);
    let mut loans = Loans::new(LOANS_ACCOUNT);
    loans.adjust_position(&mut tokens, &mut treasury, &MockRiskManager, ALICE, SERP, 500, 300).unwrap();
    // the position only holds 300 debit: the update underflows after the transfer
    assert_eq!(
        loans.confiscate_collateral_and_debit(&mut tokens, &mut treasury, ALICE, SERP, 100, 400),
        Err(DispatchError::Arithmetic(ArithmeticError::Underflow))
    );
    assert_eq!(tokens.free_balance(SERP, LOANS_ACCOUNT), 500);
    assert_eq!(treasury.total_collaterals(&tokens, SERP), 0);
    assert_eq!(treasury.debit_pool(), 0);
    assert_eq!(loans.positions(SERP, ALICE).debit, 300);
}

#[test]
fn update_loan_overflow_is_refused() {
    let mut loans = Loans::new(LOANS_ACCOUNT);
    loans.update_loan(ALICE, SERP, i128::MAX, 0).unwrap();
    loans.update_loan(ALICE, SERP, i128::MAX, 0).unwrap();
    assert_eq!(
        loans.update_loan(BOB, SERP, 2, 0),
        Err(DispatchError::Arithmetic(ArithmeticError::Overflow))
    );
    assert!(!loans.contains_position(SERP, BOB));
}

#[test]
fn open_close_twice_keeps_reference_count() {
    let mut loans = Loans::new(LOANS_ACCOUNT);
    loans.update_loan(ALICE, DNAR, 10, 0).unwrap();
    let base = loans.consumers(ALICE);
    for _ in 0..2 {
        loans.update_loan(ALICE, SERP, 100, 50).unwrap();
        assert_eq!(loans.consumers(ALICE), base + 1);
        loans.update_loan(ALICE, SERP, -100, -50).unwrap();
        assert!(!loans.contains_position(SERP, ALICE));
    }
    assert_eq!(loans.consumers(ALICE), base);
}

#[test]
fn conservation_over_many_updates() {
    let mut loans = Loans::new(LOANS_ACCOUNT);
    let steps: Vec<(AccountId, i128, i128)> = vec![(ALICE, 100, 40), (BOB, 300, 10), (ALICE, -50, 20), (3, 7, 7), (BOB, -300, -10)];
    for (who, dc, dd) in steps {
        loans.update_loan(who, SERP, dc, dd).unwrap();
    }
    let owners: [AccountId; 3] = [ALICE, BOB, 3];
    let coll: u128 = owners.iter().map(|w| loans.positions(SERP, *w).collateral).sum();
    let debit: u128 = owners.iter().map(|w| loans.positions(SERP, *w).debit).sum();
    assert_eq!(loans.total_positions(SERP).collateral, coll);
    assert_eq!(loans.total_positions(SERP).debit, debit);
    assert_eq!(coll, 57);
    assert_eq!(debit, 67);
    assert!(!loans.contains_position(SERP, BOB));
}

#[test]
fn lots_split_into_four() {
    let lots = collateral_auction_lots(1000, 2000, 300, 10, true);
    assert_eq!(lots, vec![(250, 500), (250, 500), (250, 500), (250, 500)]);
}

#[test]
fn lots_absorb_remainder_in_last() {
    let lots = collateral_auction_lots(1001, 7, 300, 10, true);
    assert_eq!(lots, vec![(250, 1), (250, 1), (250, 1), (251, 4)]);
}

#[test]
fn lots_capped_by_max_auctions() {
    let lots = collateral_auction_lots(1000, 1000, 10, 3, true);
    assert_eq!(lots, vec![(333, 333), (333, 333), (334, 334)]);
}

#[test]
fn lots_single_when_not_split() {
    assert_eq!(collateral_auction_lots(1000, 10, 300, 10, false), vec![(1000, 10)]);
    assert_eq!(collateral_auction_lots(1000, 10, 0, 10, true), vec![(1000, 10)]);
    assert_eq!(collateral_auction_lots(1000, 10, 300, 0, true), vec![(1000, 10)]);
    assert_eq!(collateral_auction_lots(300, 10, 300, 10, true), vec![(300, 10)]);
    assert_eq!(collateral_auction_lots(0, 10, 300, 10, true), vec![(0, 10)]);
}

#[test]
fn create_collateral_auctions_splits_lots() {
    let tokens = tokens_with(vec![(TREASURY_ACCOUNT, SERP, 1000)]);
    let treasury = treasury_with(10, vec![(SERP, 300)]);
    let mut auctions = MockAuctionManager::new();
    assert_eq!(treasury.create_collateral_auctions(&tokens, &mut auctions, SERP, 1000, 800, ALICE, true), Ok(()));
    assert_eq!(auctions.auctions.len(), 4);
    assert_eq!(lot_sums(&auctions.auctions), (1000, 800));
    assert!(auctions.auctions.iter().all(|a| a.refund_recipient == ALICE && a.currency_id == SERP));
    assert_eq!(auctions.auctions[0].amount, 250);
    assert_eq!(auctions.auctions[3].amount, 250);
    assert_eq!(auctions.requests.len(), 4);
    assert!(auctions.requests.iter().all(|(_, answer)| answer.is_ok()));
    assert_eq!(auctions.requests[2].0, auctions.auctions[2]);
}

#[test]
fn create_collateral_auctions_needs_collateral() {
    let tokens = tokens_with(vec![(TREASURY_ACCOUNT, SERP, 999)]);
    let treasury = treasury_with(10, vec![(SERP, 300)]);
    let mut auctions = MockAuctionManager::new();
    assert_eq!(
        treasury.create_collateral_auctions(&tokens, &mut auctions, SERP, 1000, 800, ALICE, true),
        Err(DispatchError::Treasury(Error::CollateralNotEnough))
    );
    assert!(auctions.auctions.is_empty());
    assert!(auctions.requests.is_empty());
}

#[test]
fn auction_collateral_refunds_to_treasury() {
    let tokens = tokens_with(vec![(TREASURY_ACCOUNT, DNAR, 500)]);
    let treasury = treasury_with(10, vec![]);
    let mut auctions = MockAuctionManager::new();
    assert_eq!(treasury.auction_collateral(&tokens, &mut auctions, DNAR, 500, 100, true), Ok(()));
    assert_eq!(
        auctions.auctions,
        vec![CollateralAuction { refund_recipient: TREASURY_ACCOUNT, currency_id: DNAR, amount: 500, target: 100 }]
    );
}

#[test]
fn expected_sizes_from_configuration() {
    let mut treasury = treasury_with(10, vec![(SERP, 300), (DNAR, 5), (SERP, 400)]);
    assert_eq!(treasury.expected_collateral_auction_size(SERP), 400);
    assert_eq!(treasury.expected_collateral_auction_size(DNAR), 5);
    assert_eq!(treasury.expected_collateral_auction_size(SETUSD), 0);
    assert_eq!(treasury.last_event(), None);
    treasury.set_expected_collateral_auction_size(DNAR, 77);
    assert_eq!(treasury.expected_collateral_auction_size(DNAR), 77);
    assert_eq!(
        treasury.last_event(),
        Some(TreasuryEvent::ExpectedCollateralAuctionSizeUpdated { collateral_type: DNAR, new_size: 77 })
    );
    assert_eq!(treasury.max_auction(), 10);
    assert_eq!(treasury.account_id(), TREASURY_ACCOUNT);
}

#[test]
fn offset_burns_the_smaller_pool() {
    let mut tokens = tokens_with(vec![(TREASURY_ACCOUNT, SETUSD, 500)]);
    let mut treasury = treasury_with(10, vec![]);
    assert_eq!(treasury.on_system_debit(300), Ok(()));
    treasury.offset_surplus_and_debit(&mut tokens);
    assert_eq!(treasury.debit_pool(), 0);
    assert_eq!(treasury.surplus_pool(&tokens), 200);
    assert_eq!(tokens.total_issuance(SETUSD), 200);
    // again: nothing left to offset
    treasury.offset_surplus_and_debit(&mut tokens);
    assert_eq!(treasury.debit_pool(), 0);
    assert_eq!(treasury.surplus_pool(&tokens), 200);
}

#[test]
fn offset_is_noop_with_empty_pool() {
    let mut tokens = tokens_with(vec![]);
    let mut treasury = treasury_with(10, vec![]);
    assert_eq!(treasury.on_system_debit(300), Ok(()));
    treasury.offset_surplus_and_debit(&mut tokens);
    assert_eq!(treasury.debit_pool(), 300);
    let mut tokens = tokens_with(vec![(TREASURY_ACCOUNT, SETUSD, 500)]);
    let mut treasury = treasury_with(10, vec![]);
    treasury.offset_surplus_and_debit(&mut tokens);
    assert_eq!(treasury.surplus_pool(&tokens), 500);
    assert_eq!(treasury.debit_pool(), 0);
}

#[test]
fn offset_twice_equals_once() {
    let mut tokens = tokens_with(vec![(TREASURY_ACCOUNT, SETUSD, 100)]);
    let mut treasury = treasury_with(10, vec![]);
    treasury.on_system_debit(250).unwrap();
    treasury.offset_surplus_and_debit(&mut tokens);
    let once = (treasury.debit_pool(), treasury.surplus_pool(&tokens));
    treasury.offset_surplus_and_debit(&mut tokens);
    assert_eq!((treasury.debit_pool(), treasury.surplus_pool(&tokens)), once);
    assert_eq!(once, (150, 0));
}

#[test]
fn system_debit_overflow() {
    let mut treasury = treasury_with(10, vec![]);
    assert_eq!(treasury.on_system_debit(u128::MAX), Ok(()));
    assert_eq!(treasury.on_system_debit(1), Err(DispatchError::Arithmetic(ArithmeticError::Overflow)));
    assert_eq!(treasury.debit_pool(), u128::MAX);
}

#[test]
fn issue_unbacked_debit_raises_debit_pool() {
    let mut tokens = tokens_with(vec![]);
    let mut treasury = treasury_with(10, vec![]);
    assert_eq!(treasury.issue_debit(&mut tokens, ALICE, 70, false), Ok(()));
    assert_eq!(treasury.debit_pool(), 70);
    assert_eq!(treasury.issue_debit(&mut tokens, ALICE, 30, true), Ok(()));
    assert_eq!(treasury.debit_pool(), 70);
    assert_eq!(tokens.free_balance(SETUSD, ALICE), 100);
    assert_eq!(treasury.burn_debit(&mut tokens, ALICE, 101), Err(DispatchError::Token(TokenError::BalanceTooLow)));
    assert_eq!(treasury.burn_debit(&mut tokens, ALICE, 60), Ok(()));
    assert_eq!(tokens.free_balance(SETUSD, ALICE), 40);
}

#[test]
fn surplus_and_collateral_transfers() {
    let mut tokens = tokens_with(vec![(ALICE, SETUSD, 100), (ALICE, DNAR, 50)]);
    let mut treasury = treasury_with(10, vec![]);
    assert_eq!(treasury.on_system_surplus(&mut tokens, 5), Ok(()));
    assert_eq!(treasury.deposit_surplus(&mut tokens, ALICE, 40), Ok(()));
    assert_eq!(treasury.surplus_pool(&tokens), 45);
    assert_eq!(treasury.deposit_collateral(&mut tokens, ALICE, DNAR, 50), Ok(()));
    assert_eq!(treasury.total_collaterals(&tokens, DNAR), 50);
    assert_eq!(treasury.withdraw_collateral(&mut tokens, BOB, DNAR, 60), Err(DispatchError::Token(TokenError::BalanceTooLow)));
    assert_eq!(treasury.withdraw_collateral(&mut tokens, BOB, DNAR, 20), Ok(()));
    assert_eq!(tokens.free_balance(DNAR, BOB), 20);
    assert_eq!(treasury.total_collaterals_not_in_auction(&tokens, &MockAuctionManager::new(), DNAR), 30);
}

#[test]
fn swap_without_exchange() {
    let mut tokens = tokens_with(vec![(TREASURY_ACCOUNT, DNAR, 50)]);
    let treasury = treasury_with(10, vec![]);
    let auctions = MockAuctionManager::new();
    assert_eq!(
        treasury.swap_collateral_to_stable(&mut tokens, &auctions, &mut (), DNAR, SwapLimit::ExactSupply(60, 0), false),
        Err(DispatchError::Treasury(Error::CollateralNotEnough))
    );
    assert_eq!(
        treasury.swap_collateral_to_stable(&mut tokens, &auctions, &mut (), DNAR, SwapLimit::ExactTarget(50, 10), false),
        Err(DispatchError::Treasury(Error::CannotSwap))
    );
    // nothing of it is locked in auctions
    assert_eq!(
        treasury.swap_collateral_to_stable(&mut tokens, &auctions, &mut (), DNAR, SwapLimit::ExactSupply(10, 0), true),
        Err(DispatchError::Treasury(Error::CollateralNotEnough))
    );
    assert_eq!(
        treasury.exchange_collateral_to_stable(&mut tokens, &auctions, &mut (), DNAR, SwapLimit::ExactSupply(10, 0)),
        Err(DispatchError::Treasury(Error::CannotSwap))
    );
}

#[test]
fn remove_liquidity_needs_a_share() {
    let mut tokens = tokens_with(vec![]);
    let treasury = treasury_with(10, vec![]);
    assert_eq!(
        treasury.remove_liquidity_for_lp_collateral(&mut tokens, &mut (), DNAR, 10),
        Err(DispatchError::Treasury(Error::NotDexShare))
    );
    assert_eq!(
        CurrencyId::DexShare(TokenSymbol::DNAR, TokenSymbol::SETUSD).split_dex_share_currency_id(),
        Some((DNAR, SETUSD))
    );
}

#[test]
fn extract_surplus_reaches_serp() {
    let mut tokens = tokens_with(vec![]);
    let treasury = treasury_with(10, vec![]);
    let mut serp = MockSerpTreasury::new();
    assert_eq!(treasury.extract_surplus_to_serp(&mut tokens, &mut serp, 42), Ok(()));
    assert_eq!(serp.serplus, vec![(SETUSD, 42)]);
}

#[test]
fn transfer_below_existential_deposit() {
    let mut tokens = Tokens::new(100);
    tokens.deposit(DNAR, ALICE, 1000).unwrap();
    assert_eq!(tokens.transfer(DNAR, ALICE, BOB, 99), Err(DispatchError::Token(TokenError::ExistentialDeposit)));
    assert_eq!(tokens.transfer(DNAR, ALICE, BOB, 100), Ok(()));
    assert_eq!(tokens.free_balance(DNAR, BOB), 100);
    assert_eq!(tokens.free_balance(DNAR, ALICE), 900);
    assert_eq!(tokens.withdraw(DNAR, ALICE, 901), Err(DispatchError::Token(TokenError::BalanceTooLow)));
    assert_eq!(tokens.deposit(DNAR, ALICE, u128::MAX), Err(DispatchError::Arithmetic(ArithmeticError::Overflow)));
}

#[test]
fn mocks_behave() {
    let mut flag = MockEmergencyShutdown::new();
    assert!(!flag.is_shutdown());
    mock_shutdown(&mut flag);
    assert!(flag.is_shutdown());
    assert_eq!(MockPriceSource.get_price(DNAR).map(|p| p.inner), Some(PRICE_ONE));
    assert_eq!(MockPriceSource.get_relative_price(DNAR, SERP).map(|p| p.inner), Some(PRICE_ONE));
}

#[test]
fn proportion_exact_values() {
    assert_eq!(proportion_of(1, 3).inner, 333_333_333_333_333_333);
    assert_eq!(proportion_of(1, 4).inner, 250_000_000_000_000_000);
    assert_eq!(proportion_of(5, 0).inner, 0);
    assert_eq!(proportion_of(u128::MAX, u128::MAX).inner, 1_000_000_000_000_000_000);
    assert_eq!(proportion_of(u128::MAX, 1).inner, 0);
    assert_eq!(proportion_of(1 << 100, 1 << 101).inner, 500_000_000_000_000_000);
    assert_eq!(proportion_of(7, u128::MAX).inner, 0);
    assert_eq!(proportion_of(u128::MAX - 1, u128::MAX).inner, 999_999_999_999_999_999);
}

#[test]
fn debit_proportion_of_issuance() {
    let tokens = tokens_with(vec![(ALICE, SETUSD, 400)]);
    let treasury = treasury_with(10, vec![]);
    assert_eq!(treasury.get_debit_proportion(&tokens, 100).inner, 250_000_000_000_000_000);
    let empty = tokens_with(vec![]);
    assert_eq!(treasury.get_debit_proportion(&empty, 100).inner, 0);
}
