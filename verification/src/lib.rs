//! A tokenized vault over a single fungible asset class held in an external
//! multi-token ledger.
//!
//! The vault mints its own shares against deposited assets and redeems shares
//! back into assets. Exchange rates are computed with double-width integer
//! arithmetic and directional rounding, with a virtual offset that blunts
//! donation-style inflation attacks. Withdrawals follow an
//! optimistic-mutate / reconcile-on-outcome state machine: shares and assets
//! are debited up front, and the debit is either committed or rolled back once
//! the external transfer's outcome is known.

pub mod arith;
pub mod ledger;
pub mod rates;
pub mod vault;

pub use rates::{assets_for_shares, mul_div, shares_for_assets, Rounding};
pub use ledger::{ShareAccount, ShareLedger};
pub use vault::{DepositMessage, PendingWithdrawal, StorageKey, TokenizedMTVault, TransferOutcome, VaultError};
