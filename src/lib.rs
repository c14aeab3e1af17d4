//! Accounting core of a collateralized-debt-position stablecoin: a position
//! ledger, a treasury ledger with surplus / debit pools and collateral
//! auction lot splitting, and a multi-currency balance ledger.
pub mod sums;
pub mod types;
pub mod tokens;
pub mod traits;
pub mod auction_lots;
pub mod treasury;
pub mod loans;
pub mod mocks;
pub mod ratio;
