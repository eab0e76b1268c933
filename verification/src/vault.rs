//! The tokenized vault: deposit and withdrawal protocols over the
//! exchange-rate engine and the share ledger.
//!
//! Deposits arrive through the external asset ledger's transfer-and-notify
//! callback and commit synchronously. Withdrawals debit shares and assets
//! optimistically, hand back a [`PendingWithdrawal`] context for the caller
//! to carry through the asynchronous transfer, and reconcile in
//! [`TokenizedMTVault::resolve_withdraw`] once the transfer's outcome is
//! known: commit on success, full rollback on failure.

use vstd::prelude::*;
use crate::ledger::{ShareAccount, ShareLedger};
use crate::rates::{
    assets_for_shares, assets_for_shares_spec, lemma_deposit_used_bounds,
    lemma_redeem_preserves_offset, lemma_shares_for_assets_le, lemma_withdraw_shares_bounds,
    shares_for_assets, shares_for_assets_spec, Rounding,
};

verus! {

/// Why a vault call aborted with no effect.
#[derive(Clone, Copy, PartialEq, Eq, Structural, Debug)]
pub enum VaultError {
    /// More shares offered for redemption than the owner's balance.
    ExceedsMaxRedeem,
    /// More assets requested than the owner's shares are worth.
    ExceedsMaxWithdraw,
    /// A share transfer asked for more shares than the sender holds.
    InsufficientShares,
    /// A share-to-asset valuation does not fit in 128 bits.
    ConversionOverflow,
    /// The vault would have to pay out more assets than it manages.
    TotalAssetsUnderflow,
    /// The vault's managed assets would pass `u128::MAX`.
    TotalAssetsOverflow,
    /// The issued shares would pass `u128::MAX`.
    SharesOverflow,
}

impl VaultError {
    /// A short description of the abort reason.
    pub fn message(&self) -> &'static str {
        match self {
            VaultError::ExceedsMaxRedeem => "Exceeds max redeem",
            VaultError::ExceedsMaxWithdraw => "Exceeds max withdraw",
            VaultError::InsufficientShares => "The account doesn't have enough balance",
            VaultError::ConversionOverflow => "Conversion overflow",
            VaultError::TotalAssetsUnderflow => "Total assets underflow",
            VaultError::TotalAssetsOverflow => "Total assets overflow",
            VaultError::SharesOverflow => "Total supply overflow",
        }
    }
}

/// The reported outcome of the asynchronous asset transfer issued for a
/// withdrawal.
#[derive(Clone, Copy, PartialEq, Eq, Structural, Debug)]
pub enum TransferOutcome {
    Success,
    Failure,
}

/// An optional structured directive carried in a deposit's message.
#[derive(Clone, Debug)]
pub struct DepositMessage {
    /// Reject the whole deposit if it would mint fewer shares than this.
    pub min_shares: Option<u128>,
    /// Cap the minted shares, refunding the assets they would have cost.
    pub max_shares: Option<u128>,
    /// Account credited with the minted shares; the sender when absent.
    pub receiver_id: Option<String>,
    /// Free-form note carried into the deposit event.
    pub memo: Option<String>,
}

/// The continuation context of one in-flight withdrawal: captured when the
/// optimistic debit commits, consumed when the transfer's outcome is known.
#[derive(Clone, Debug)]
pub struct PendingWithdrawal {
    /// The account whose shares were burned.
    pub owner: String,
    /// The account the assets are being transferred to.
    pub receiver: String,
    /// Shares debited from `owner`.
    pub shares: u128,
    /// Assets requested from the external ledger for `receiver`.
    pub assets: u128,
    /// Free-form note carried into the withdrawal event.
    pub memo: Option<String>,
}

/// Names the vault's persisted collections; host glue maps each variant to a
/// storage prefix.
#[derive(Clone, Copy, PartialEq, Eq, Structural, Debug)]
pub enum StorageKey {
    FungibleToken,
}

/// The vault: its configuration, its asset accounting, and the share ledger.
pub struct TokenizedMTVault {
    token: ShareLedger,
    asset: String,
    asset_token_id: String,
    total_assets: u128,
    owner: String,
}

impl TokenizedMTVault {
    /// The account id of the external ledger holding the managed asset.
    pub closed spec fn asset_spec(self) -> Seq<char> {
        self.asset@
    }

    /// The managed token class within the external ledger.
    pub closed spec fn asset_token_id_spec(self) -> Seq<char> {
        self.asset_token_id@
    }

    /// The account that created the vault.
    pub closed spec fn owner_spec(self) -> Seq<char> {
        self.owner@
    }

    /// The vault's own accounting of the assets it manages.
    pub closed spec fn total_assets_spec(self) -> u128 {
        self.total_assets
    }

    /// Shares issued across all accounts.
    pub closed spec fn total_shares_spec(self) -> u128 {
        self.token.total_spec()
    }

    /// The share balance of one account.
    pub closed spec fn balance_spec(self, id: Seq<char>) -> u128 {
        self.token.balance_spec(id)
    }

    /// Well-formedness: a consistent share ledger whose issued shares never
    /// pass one beyond the managed assets (the anti-inflation offset keeps
    /// this a standing invariant).
    pub closed spec fn wf(self) -> bool {
        &&& self.token.wf()
        &&& self.token.total_spec() <= self.total_assets + 1
    }

    /// Shares corresponding to `assets` at the current pool state.
    pub open spec fn convert_to_shares_spec(self, assets: int, round: Rounding) -> int {
        shares_for_assets_spec(
            assets,
            self.total_assets_spec() as int,
            self.total_shares_spec() as int,
            round,
        )
    }

    /// Assets corresponding to `shares` at the current pool state.
    pub open spec fn convert_to_assets_spec(self, shares: int, round: Rounding) -> int {
        assets_for_shares_spec(
            shares,
            self.total_assets_spec() as int,
            self.total_shares_spec() as int,
            round,
        )
    }

    /// The most shares `owner` can redeem: their balance.
    pub open spec fn max_redeem_spec(self, owner: Seq<char>) -> int {
        self.balance_spec(owner) as int
    }

    /// The most assets `owner` can withdraw: their balance's value, rounded
    /// down.
    pub open spec fn max_withdraw_spec(self, owner: Seq<char>) -> int {
        self.convert_to_assets_spec(self.balance_spec(owner) as int, Rounding::Down)
    }

    /// The vault's configuration is never touched by the protocols.
    pub open spec fn config_unchanged(pre: Self, post: Self) -> bool {
        &&& post.asset_spec() == pre.asset_spec()
        &&& post.asset_token_id_spec() == pre.asset_token_id_spec()
        &&& post.owner_spec() == pre.owner_spec()
    }

    /// The optimistic mutation of a withdrawal: `shares` burned from `owner`,
    /// `assets` taken out of the managed total, nothing else touched.
    pub open spec fn withdrawal_debit(
        pre: Self,
        post: Self,
        owner: Seq<char>,
        shares: u128,
        assets: u128,
    ) -> bool {
        &&& Self::config_unchanged(pre, post)
        &&& post.total_assets_spec() == pre.total_assets_spec() - assets
        &&& post.total_shares_spec() == pre.total_shares_spec() - shares
        &&& post.balance_spec(owner) == pre.balance_spec(owner) - shares
        &&& forall|id: Seq<char>| id != owner ==> post.balance_spec(id) == pre.balance_spec(id)
    }

    /// The rollback of a withdrawal: `shares` re-credited to `owner`,
    /// `assets` restored to the managed total, nothing else touched.
    pub open spec fn withdrawal_reversal(
        pre: Self,
        post: Self,
        owner: Seq<char>,
        shares: u128,
        assets: u128,
    ) -> bool {
        &&& Self::config_unchanged(pre, post)
        &&& post.total_assets_spec() == pre.total_assets_spec() + assets
        &&& post.total_shares_spec() == pre.total_shares_spec() + shares
        &&& post.balance_spec(owner) == pre.balance_spec(owner) + shares
        &&& forall|id: Seq<char>| id != owner ==> post.balance_spec(id) == pre.balance_spec(id)
    }

    /// Law: a withdrawal that rolls back leaves every observable field of the
    /// vault exactly as it was before the optimistic debit.
    pub proof fn lemma_withdrawal_rollback_restores(
        pre: Self,
        mid: Self,
        post: Self,
        owner: Seq<char>,
        shares: u128,
        assets: u128,
    )
        requires
            Self::withdrawal_debit(pre, mid, owner, shares, assets),
            Self::withdrawal_reversal(mid, post, owner, shares, assets),
        ensures
            post.total_assets_spec() == pre.total_assets_spec(),
            post.total_shares_spec() == pre.total_shares_spec(),
            forall|id: Seq<char>| post.balance_spec(id) == pre.balance_spec(id),
            Self::config_unchanged(pre, post),
    {
        assert forall|id: Seq<char>| post.balance_spec(id) == pre.balance_spec(id) by {
            if id != owner {
                assert(mid.balance_spec(id) == pre.balance_spec(id));
            }
        }
    }

    /// A fresh vault managing the token class `asset_token_id` of the ledger
    /// `asset`: nothing deposited, nothing issued.
    pub fn new(asset: String, asset_token_id: String, owner: String) -> (r: Self)
        ensures
            r.wf(),
            r.asset_spec() == asset@,
            r.asset_token_id_spec() == asset_token_id@,
            r.owner_spec() == owner@,
            r.total_assets_spec() == 0,
            r.total_shares_spec() == 0,
            forall|id: Seq<char>| r.balance_spec(id) == 0,
    {
        TokenizedMTVault { token: ShareLedger::new(), asset, asset_token_id, total_assets: 0, owner }
    }

    /// Rebuilds a vault from persisted state: a share ledger (normally
    /// reassembled by crediting a snapshot's entries) and the recorded asset
    /// total. Returns `None` exactly when the pair breaks the vault's
    /// standing invariant, that issued shares never pass one beyond the
    /// managed assets.
    pub fn with_state(
        asset: String,
        asset_token_id: String,
        owner: String,
        total_assets: u128,
        token: ShareLedger,
    ) -> (r: Option<TokenizedMTVault>)
        requires
            token.wf(),
        ensures
            r is Some <==> token.total_spec() <= total_assets + 1,
            r is Some ==> {
                let v = r->Some_0;
                &&& v.wf()
                &&& v.asset_spec() == asset@
                &&& v.asset_token_id_spec() == asset_token_id@
                &&& v.owner_spec() == owner@
                &&& v.total_assets_spec() == total_assets
                &&& v.total_shares_spec() == token.total_spec()
                &&& forall|id: Seq<char>| v.balance_spec(id) == token.balance_spec(id)
            },
    {
        let ts = token.total_issued();
        if ts > 0 && ts - 1 > total_assets {
            return None;
        }
        Some(TokenizedMTVault { token, asset, asset_token_id, total_assets, owner })
    }

    /// The share ledger's entries, for snapshotting the vault's state.
    pub fn share_accounts(&self) -> (r: &Vec<ShareAccount>)
        requires
            self.wf(),
        ensures
            crate::ledger::unique_ids(r@),
            crate::ledger::sum_bal(r@) == self.total_shares_spec(),
            forall|i: int| 0 <= i < r@.len() ==> r@[i].balance == self.balance_spec(r@[i].id@),
            forall|id: Seq<char>|
                self.balance_spec(id) != 0 ==> crate::ledger::has_id(r@, id),
    {
        self.token.entries()
    }

    /// The account id of the external ledger holding the managed asset.
    pub fn asset(&self) -> (r: String)
        ensures
            r@ == self.asset_spec(),
    {
        self.asset.clone()
    }

    /// The managed token class within the external ledger.
    pub fn asset_token_id(&self) -> (r: String)
        ensures
            r@ == self.asset_token_id_spec(),
    {
        self.asset_token_id.clone()
    }

    /// The vault's accounting of the assets it manages.
    pub fn total_assets(&self) -> (r: u128)
        ensures
            r == self.total_assets_spec(),
    {
        self.total_assets
    }

    /// Total shares issued.
    pub fn ft_total_supply(&self) -> (r: u128)
        ensures
            r == self.total_shares_spec(),
    {
        self.token.total_issued()
    }

    /// The share balance of one account.
    pub fn ft_balance_of(&self, account_id: &String) -> (r: u128)
        requires
            self.wf(),
        ensures
            r == self.balance_spec(account_id@),
    {
        self.token.balance_of(account_id)
    }

    /// Moves `amount` shares from `sender` to `receiver_id`; fails with no
    /// effect exactly when `sender`'s balance is insufficient.
    #[allow(unused_variables)]
    pub fn ft_transfer(
        &mut self,
        sender: &String,
        receiver_id: &String,
        amount: u128,
        memo: Option<String>,
    ) -> (r: Result<(), VaultError>)
        requires
            old(self).wf(),
        ensures
            final(self).wf(),
            match r {
                Err(e) => {
                    &&& e == VaultError::InsufficientShares
                    &&& amount > old(self).balance_spec(sender@)
                    &&& *final(self) == *old(self)
                },
                Ok(()) => {
                    &&& amount <= old(self).balance_spec(sender@)
                    &&& Self::config_unchanged(*old(self), *final(self))
                    &&& final(self).total_assets_spec() == old(self).total_assets_spec()
                    &&& final(self).total_shares_spec() == old(self).total_shares_spec()
                    &&& if sender@ == receiver_id@ {
                        forall|id: Seq<char>|
                            final(self).balance_spec(id) == old(self).balance_spec(id)
                    } else {
                        &&& final(self).balance_spec(sender@) == old(self).balance_spec(sender@)
                            - amount
                        &&& final(self).balance_spec(receiver_id@) == old(self).balance_spec(
                            receiver_id@,
                        ) + amount
                        &&& forall|id: Seq<char>|
                            id != sender@ && id != receiver_id@ ==> final(self).balance_spec(id)
                                == old(self).balance_spec(id)
                    }
                },
            },
    {
        let ok = self.token.debit(sender, amount);
        if !ok {
            return Err(VaultError::InsufficientShares);
        }
        proof {
            self.token.lemma_balance_le_total(receiver_id@);
        }
        let ok2 = self.token.credit(receiver_id, amount);
        proof {
            assert(ok2);
        }
        Ok(())
    }

    /// Settles a share transfer-and-call once the receiver has reported the
    /// unused portion: refunds what the receiver both left unused and still
    /// holds, and returns the amount of shares that stayed transferred.
    pub fn ft_resolve_transfer(
        &mut self,
        sender_id: &String,
        receiver_id: &String,
        amount: u128,
        unused: u128,
    ) -> (r: u128)
        requires
            old(self).wf(),
        ensures
            final(self).wf(),
            Self::config_unchanged(*old(self), *final(self)),
            final(self).total_assets_spec() == old(self).total_assets_spec(),
            final(self).total_shares_spec() == old(self).total_shares_spec(),
            ({
                let unused_capped = if unused > amount {
                    amount as int
                } else {
                    unused as int
                };
                let refund = if old(self).balance_spec(receiver_id@) < unused_capped {
                    old(self).balance_spec(receiver_id@) as int
                } else {
                    unused_capped
                };
                &&& r == amount - refund
                &&& if sender_id@ == receiver_id@ || refund == 0 {
                    forall|id: Seq<char>|
                        final(self).balance_spec(id) == old(self).balance_spec(id)
                } else {
                    &&& final(self).balance_spec(receiver_id@) == old(self).balance_spec(
                        receiver_id@,
                    ) - refund
                    &&& final(self).balance_spec(sender_id@) == old(self).balance_spec(
                        sender_id@,
                    ) + refund
                    &&& forall|id: Seq<char>|
                        id != sender_id@ && id != receiver_id@ ==> final(self).balance_spec(id)
                            == old(self).balance_spec(id)
                }
            }),
    {
        let unused_capped = if unused > amount {
            amount
        } else {
            unused
        };
        let bal = self.token.balance_of(receiver_id);
        let refund = if bal < unused_capped {
            bal
        } else {
            unused_capped
        };
        if refund > 0 {
            let ok = self.token.debit(receiver_id, refund);
            proof {
                assert(ok);
                self.token.lemma_balance_le_total(sender_id@);
            }
            let ok2 = self.token.credit(sender_id, refund);
            proof {
                assert(ok2);
            }
        }
        amount - refund
    }

    /// Shares `assets` would mint right now (rounded down, as deposits
    /// value them). Pure; never fails.
    pub fn convert_to_shares(&self, assets: u128) -> (r: u128)
        requires
            self.wf(),
        ensures
            r == self.convert_to_shares_spec(assets as int, Rounding::Down),
    {
        let ts = self.token.total_issued();
        proof {
            lemma_shares_for_assets_le(
                assets as int,
                self.total_assets as int,
                ts as int,
                Rounding::Down,
            );
        }
        shares_for_assets(assets, self.total_assets, ts, Rounding::Down).unwrap()
    }

    /// Assets `shares` are worth right now (rounded down, as redemptions
    /// value them). Pure; the result must fit in 128 bits.
    pub fn convert_to_assets(&self, shares: u128) -> (r: u128)
        requires
            self.wf(),
            self.convert_to_assets_spec(shares as int, Rounding::Down) <= u128::MAX,
        ensures
            r == self.convert_to_assets_spec(shares as int, Rounding::Down),
    {
        let ts = self.token.total_issued();
        assets_for_shares(shares, self.total_assets, ts, Rounding::Down).unwrap()
    }

    /// Shares a withdrawal of `assets` would burn right now (rounded up, so a
    /// withdrawer never gets more value than requested). Pure; never fails.
    pub fn preview_withdraw(&self, assets: u128) -> (r: u128)
        requires
            self.wf(),
        ensures
            r == self.convert_to_shares_spec(assets as int, Rounding::Up),
    {
        let ts = self.token.total_issued();
        proof {
            lemma_shares_for_assets_le(
                assets as int,
                self.total_assets as int,
                ts as int,
                Rounding::Up,
            );
        }
        shares_for_assets(assets, self.total_assets, ts, Rounding::Up).unwrap()
    }

    /// The most shares `owner` can redeem.
    pub fn max_redeem(&self, owner: &String) -> (r: u128)
        requires
            self.wf(),
        ensures
            r == self.max_redeem_spec(owner@),
    {
        self.token.balance_of(owner)
    }

    /// The most assets `owner` can withdraw; `None` when that value does not
    /// fit in 128 bits.
    pub fn max_withdraw(&self, owner: &String) -> (r: Option<u128>)
        requires
            self.wf(),
        ensures
            r is Some <==> self.max_withdraw_spec(owner@) <= u128::MAX,
            r is Some ==> r->Some_0 == self.max_withdraw_spec(owner@),
    {
        let bal = self.token.balance_of(owner);
        let ts = self.token.total_issued();
        assets_for_shares(bal, self.total_assets, ts, Rounding::Down)
    }

    /// Why a `redeem` call aborts, if it does: the checks in the order the
    /// protocol makes them.
    pub open spec fn redeem_error(self, owner: Seq<char>, shares: int) -> Option<VaultError> {
        let assets = self.convert_to_assets_spec(shares, Rounding::Down);
        if shares > self.max_redeem_spec(owner) {
            Some(VaultError::ExceedsMaxRedeem)
        } else if assets > u128::MAX {
            Some(VaultError::ConversionOverflow)
        } else if assets > self.total_assets_spec() {
            Some(VaultError::TotalAssetsUnderflow)
        } else {
            None
        }
    }

    /// Burns `shares` of `owner`'s and optimistically takes their down-rounded
    /// value out of the managed assets; the caller must carry the returned
    /// context through the external transfer and hand its outcome to
    /// [`Self::resolve_withdraw`]. Aborts with no effect as
    /// [`Self::redeem_error`] says.
    pub fn redeem(
        &mut self,
        owner: &String,
        shares: u128,
        receiver_id: Option<String>,
        memo: Option<String>,
    ) -> (r: Result<PendingWithdrawal, VaultError>)
        requires
            old(self).wf(),
        ensures
            final(self).wf(),
            match r {
                Err(e) => {
                    &&& *final(self) == *old(self)
                    &&& old(self).redeem_error(owner@, shares as int) == Some(e)
                },
                Ok(p) => {
                    &&& old(self).redeem_error(owner@, shares as int) is None
                    &&& p.owner@ == owner@
                    &&& p.receiver@ == (match receiver_id {
                        Some(rc) => rc@,
                        None => owner@,
                    })
                    &&& p.shares == shares
                    &&& p.assets == old(self).convert_to_assets_spec(
                        shares as int,
                        Rounding::Down,
                    )
                    &&& p.memo == memo
                    &&& Self::withdrawal_debit(
                        *old(self),
                        *final(self),
                        owner@,
                        p.shares,
                        p.assets,
                    )
                },
            },
    {
        let bal = self.token.balance_of(owner);
        if shares > bal {
            return Err(VaultError::ExceedsMaxRedeem);
        }
        let ts = self.token.total_issued();
        let assets = match assets_for_shares(shares, self.total_assets, ts, Rounding::Down) {
            Some(a) => a,
            None => {
                return Err(VaultError::ConversionOverflow);
            },
        };
        if assets > self.total_assets {
            return Err(VaultError::TotalAssetsUnderflow);
        }
        proof {
            self.token.lemma_balance_le_total(owner@);
            if ts > 0 {
                lemma_redeem_preserves_offset(shares as int, self.total_assets as int, ts as int);
            }
        }
        let ok = self.token.debit(owner, shares);
        proof {
            assert(ok);
        }
        self.total_assets = self.total_assets - assets;
        let receiver = match receiver_id {
            Some(rc) => rc,
            None => owner.clone(),
        };
        Ok(PendingWithdrawal { owner: owner.clone(), receiver, shares, assets, memo })
    }

    /// Why a `withdraw` call aborts, if it does: the checks in the order the
    /// protocol makes them.
    pub open spec fn withdraw_error(self, owner: Seq<char>, assets: int) -> Option<VaultError> {
        if assets > self.max_withdraw_spec(owner) {
            Some(VaultError::ExceedsMaxWithdraw)
        } else if assets > self.total_assets_spec() {
            Some(VaultError::TotalAssetsUnderflow)
        } else {
            None
        }
    }

    /// Burns the up-rounded share cost of `assets` from `owner` and
    /// optimistically takes `assets` out of the managed total; the caller must
    /// carry the returned context through the external transfer and hand its
    /// outcome to [`Self::resolve_withdraw`]. Aborts with no effect as
    /// [`Self::withdraw_error`] says.
    pub fn withdraw(
        &mut self,
        owner: &String,
        assets: u128,
        receiver_id: Option<String>,
        memo: Option<String>,
    ) -> (r: Result<PendingWithdrawal, VaultError>)
        requires
            old(self).wf(),
        ensures
            final(self).wf(),
            match r {
                Err(e) => {
                    &&& *final(self) == *old(self)
                    &&& old(self).withdraw_error(owner@, assets as int) == Some(e)
                },
                Ok(p) => {
                    &&& old(self).withdraw_error(owner@, assets as int) is None
                    &&& p.owner@ == owner@
                    &&& p.receiver@ == (match receiver_id {
                        Some(rc) => rc@,
                        None => owner@,
                    })
                    &&& p.shares == old(self).convert_to_shares_spec(assets as int, Rounding::Up)
                    &&& p.assets == assets
                    &&& p.memo == memo
                    &&& Self::withdrawal_debit(
                        *old(self),
                        *final(self),
                        owner@,
                        p.shares,
                        p.assets,
                    )
                },
            },
    {
        let bal = self.token.balance_of(owner);
        let ts = self.token.total_issued();
        let exceeds = match assets_for_shares(bal, self.total_assets, ts, Rounding::Down) {
            Some(mw) => assets > mw,
            None => false,
        };
        if exceeds {
            return Err(VaultError::ExceedsMaxWithdraw);
        }
        if assets > self.total_assets {
            return Err(VaultError::TotalAssetsUnderflow);
        }
        proof {
            self.token.lemma_balance_le_total(owner@);
            lemma_shares_for_assets_le(
                assets as int,
                self.total_assets as int,
                ts as int,
                Rounding::Up,
            );
            if ts > 0 {
                lemma_withdraw_shares_bounds(
                    assets as int,
                    bal as int,
                    self.total_assets as int,
                    ts as int,
                );
            }
        }
        let shares = shares_for_assets(assets, self.total_assets, ts, Rounding::Up).unwrap();
        let ok = self.token.debit(owner, shares);
        proof {
            assert(ok);
        }
        self.total_assets = self.total_assets - assets;
        let receiver = match receiver_id {
            Some(rc) => rc,
            None => owner.clone(),
        };
        Ok(PendingWithdrawal { owner: owner.clone(), receiver, shares, assets, memo })
    }

    /// Reconciles one withdrawal once its transfer's outcome is known. On
    /// success the optimistic debit stands and the assets moved are returned;
    /// on failure the debit is fully rolled back and zero is returned. The
    /// context must be the one a successful `redeem`/`withdraw` call handed
    /// out against the state it left behind, which is what the arithmetic
    /// preconditions say.
    #[allow(unused_variables)]
    pub fn resolve_withdraw(
        &mut self,
        owner: &String,
        receiver: &String,
        shares: u128,
        assets: u128,
        memo: Option<String>,
        outcome: TransferOutcome,
    ) -> (r: u128)
        requires
            old(self).wf(),
            old(self).total_shares_spec() + shares <= u128::MAX,
            old(self).total_assets_spec() + assets <= u128::MAX,
            old(self).total_shares_spec() + shares <= old(self).total_assets_spec() + assets + 1,
        ensures
            final(self).wf(),
            match outcome {
                TransferOutcome::Success => {
                    &&& *final(self) == *old(self)
                    &&& r == assets
                },
                TransferOutcome::Failure => {
                    &&& r == 0
                    &&& Self::withdrawal_reversal(
                        *old(self),
                        *final(self),
                        owner@,
                        shares,
                        assets,
                    )
                },
            },
    {
        match outcome {
            TransferOutcome::Success => assets,
            TransferOutcome::Failure => {
                let ok = self.token.credit(owner, shares);
                proof {
                    assert(ok);
                }
                self.total_assets = self.total_assets + assets;
                0
            },
        }
    }

    /// A deposit notification is structurally valid when it comes from the
    /// configured asset ledger and carries exactly one amount of the managed
    /// token class.
    pub open spec fn deposit_structural_ok(
        self,
        predecessor: Seq<char>,
        token_ids: Seq<String>,
        amounts: Seq<u128>,
    ) -> bool {
        &&& predecessor == self.asset_spec()
        &&& token_ids.len() == 1
        &&& amounts.len() == 1
        &&& token_ids[0]@ == self.asset_token_id_spec()
    }

    /// The down-rounded share valuation of a deposit of `amount`.
    pub open spec fn deposit_calculated_shares(self, amount: int) -> int {
        self.convert_to_shares_spec(amount, Rounding::Down)
    }

    /// Whether the directive's `min_shares` floor rejects the whole deposit.
    pub open spec fn deposit_slippage_reject(self, amount: int, msg: Option<DepositMessage>) -> bool {
        match msg {
            Some(m) => match m.min_shares {
                Some(mn) => self.deposit_calculated_shares(amount) < mn,
                None => false,
            },
            None => false,
        }
    }

    /// The shares a deposit of `amount` mints: the valuation, capped by the
    /// directive's `max_shares` if one is given.
    pub open spec fn deposit_shares(self, amount: int, msg: Option<DepositMessage>) -> int {
        let calc = self.deposit_calculated_shares(amount);
        match msg {
            Some(m) => match m.max_shares {
                Some(mx) => if calc > mx {
                    mx as int
                } else {
                    calc
                },
                None => calc,
            },
            None => calc,
        }
    }

    /// The assets a deposit actually consumes: the up-rounded cost of the
    /// minted shares.
    pub open spec fn deposit_used(self, amount: int, msg: Option<DepositMessage>) -> int {
        self.convert_to_assets_spec(self.deposit_shares(amount, msg), Rounding::Up)
    }

    /// The account credited with the minted shares: the directive's receiver,
    /// or the sender.
    pub open spec fn deposit_receiver(
        sender: Seq<char>,
        msg: Option<DepositMessage>,
    ) -> Seq<char> {
        match msg {
            Some(m) => match m.receiver_id {
                Some(rc) => rc@,
                None => sender,
            },
            None => sender,
        }
    }

    /// Why a structurally valid, unrejected deposit aborts, if it does: the
    /// overflow checks in the order the protocol makes them.
    pub open spec fn deposit_error(self, amount: int, msg: Option<DepositMessage>) -> Option<
        VaultError,
    > {
        if self.total_shares_spec() + self.deposit_shares(amount, msg) > u128::MAX {
            Some(VaultError::SharesOverflow)
        } else if self.total_assets_spec() + self.deposit_used(amount, msg) > u128::MAX {
            Some(VaultError::TotalAssetsOverflow)
        } else {
            None
        }
    }

    /// The committed effect of an accepted deposit: `shares` minted to
    /// `receiver`, `used` assets absorbed, nothing else touched.
    pub open spec fn deposit_committed(
        pre: Self,
        post: Self,
        receiver: Seq<char>,
        shares: int,
        used: int,
    ) -> bool {
        &&& Self::config_unchanged(pre, post)
        &&& post.total_assets_spec() == pre.total_assets_spec() + used
        &&& post.total_shares_spec() == pre.total_shares_spec() + shares
        &&& post.balance_spec(receiver) == pre.balance_spec(receiver) + shares
        &&& forall|id: Seq<char>| id != receiver ==> post.balance_spec(id) == pre.balance_spec(id)
    }

    /// The inbound-transfer callback: turns an incoming asset transfer into
    /// minted shares and returns the unused amounts, which the external
    /// ledger refunds. Structural mismatches, a missed `min_shares` floor and
    /// a deposit too small to consume any asset all reject the transfer by
    /// returning it in full, with no state change; conservation
    /// (`used + unused == amount`) is part of the contract.
    #[allow(unused_variables)]
    pub fn mt_on_transfer(
        &mut self,
        sender_id: &String,
        previous_owner_id: &String,
        token_ids: &Vec<String>,
        amounts: &Vec<u128>,
        msg: Option<DepositMessage>,
        predecessor: &String,
    ) -> (r: Result<Vec<u128>, VaultError>)
        requires
            old(self).wf(),
        ensures
            final(self).wf(),
            !old(self).deposit_structural_ok(predecessor@, token_ids@, amounts@) ==> {
                &&& *final(self) == *old(self)
                &&& r matches Ok(v) && v@ == amounts@
            },
            old(self).deposit_structural_ok(predecessor@, token_ids@, amounts@) ==> {
                let pre = *old(self);
                let amount = amounts@[0];
                let shares = pre.deposit_shares(amount as int, msg);
                let used = pre.deposit_used(amount as int, msg);
                if pre.deposit_slippage_reject(amount as int, msg) || used == 0 {
                    &&& *final(self) == *old(self)
                    &&& r matches Ok(v) && v@ =~= seq![amount]
                } else if pre.deposit_error(amount as int, msg) is Some {
                    &&& *final(self) == *old(self)
                    &&& r == Err::<Vec<u128>, VaultError>(
                        pre.deposit_error(amount as int, msg)->Some_0,
                    )
                } else {
                    &&& r matches Ok(v) && v@ =~= seq![(amount - used) as u128]
                    &&& used + (amount - used) == amount
                    &&& Self::deposit_committed(
                        pre,
                        *final(self),
                        Self::deposit_receiver(sender_id@, msg),
                        shares,
                        used,
                    )
                }
            },
    {
        if !(*predecessor == self.asset) {
            return Ok(copy_amounts(amounts));
        }
        if token_ids.len() != 1 || amounts.len() != 1 {
            return Ok(copy_amounts(amounts));
        }
        if !(token_ids[0] == self.asset_token_id) {
            return Ok(copy_amounts(amounts));
        }
        let amount = amounts[0];
        let ts = self.token.total_issued();
        proof {
            lemma_shares_for_assets_le(
                amount as int,
                self.total_assets as int,
                ts as int,
                Rounding::Down,
            );
        }
        let calculated_shares = shares_for_assets(
            amount,
            self.total_assets,
            ts,
            Rounding::Down,
        ).unwrap();
        // All-or-nothing slippage guard: reject the entire deposit.
        let rejected = match &msg {
            Some(m) => match m.min_shares {
                Some(mn) => calculated_shares < mn,
                None => false,
            },
            None => false,
        };
        if rejected {
            return Ok(single_amount(amount));
        }
        let shares = match &msg {
            Some(m) => match m.max_shares {
                Some(mx) => if calculated_shares > mx {
                    mx
                } else {
                    calculated_shares
                },
                None => calculated_shares,
            },
            None => calculated_shares,
        };
        proof {
            lemma_deposit_used_bounds(
                amount as int,
                self.total_assets as int,
                ts as int,
                shares as int,
            );
        }
        let used = assets_for_shares(shares, self.total_assets, ts, Rounding::Up).unwrap();
        if used == 0 {
            // Degenerate deposit: too small to consume any asset.
            return Ok(single_amount(amount));
        }
        let unused = amount - used;
        if ts.checked_add(shares).is_none() {
            return Err(VaultError::SharesOverflow);
        }
        let new_total_assets = match self.total_assets.checked_add(used) {
            Some(v) => v,
            None => {
                return Err(VaultError::TotalAssetsOverflow);
            },
        };
        let receiver: String = match msg {
            Some(m) => match m.receiver_id {
                Some(rc) => rc,
                None => sender_id.clone(),
            },
            None => sender_id.clone(),
        };
        let ok = self.token.credit(&receiver, shares);
        proof {
            assert(ok);
        }
        self.total_assets = new_total_assets;
        Ok(single_amount(unused))
    }
}

/// An exact copy of an amounts vector, for returning a batch fully unused.
fn copy_amounts(v: &Vec<u128>) -> (r: Vec<u128>)
    ensures
        r@ == v@,
{
    let mut r: Vec<u128> = Vec::new();
    let mut i: usize = 0;
    while i < v.len()
        invariant
            i <= v@.len(),
            r@ == v@.subrange(0, i as int),
        decreases v@.len() - i,
    {
        r.push(v[i]);
        proof {
            assert(r@ =~= v@.subrange(0, i + 1));
        }
        i = i + 1;
    }
    proof {
        assert(r@ =~= v@);
    }
    r
}

/// A one-element unused-amounts vector.
fn single_amount(x: u128) -> (r: Vec<u128>)
    ensures
        r@ =~= seq![x],
{
    let mut r: Vec<u128> = Vec::new();
    r.push(x);
    r
}

} // verus!
