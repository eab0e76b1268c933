use mt_vault::{
    assets_for_shares, mul_div, shares_for_assets, DepositMessage, Rounding, ShareLedger,
    TokenizedMTVault, TransferOutcome, VaultError,
};

const MAX: u128 = u128::MAX;

#[test]
fn test_mul_div_exact_values() {
    assert_eq!(mul_div(7, 3, 2, Rounding::Down), Some(10));
    assert_eq!(mul_div(7, 3, 2, Rounding::Up), Some(11));
    assert_eq!(mul_div(6, 4, 2, Rounding::Down), Some(12));
    assert_eq!(mul_div(6, 4, 2, Rounding::Up), Some(12));
    assert_eq!(mul_div(0, MAX, 5, Rounding::Up), Some(0));
    assert_eq!(mul_div(1, 1, MAX, Rounding::Down), Some(0));
    assert_eq!(mul_div(1, 1, MAX, Rounding::Up), Some(1));
}

#[test]
fn test_mul_div_near_max() {
    // MAX * MAX / MAX = MAX: the 256-bit intermediate must not wrap.
    assert_eq!(mul_div(MAX, MAX, MAX, Rounding::Down), Some(MAX));
    assert_eq!(mul_div(MAX, MAX, MAX, Rounding::Up), Some(MAX));
    // The quotient itself can exceed 128 bits: that is reported, not wrapped.
    assert_eq!(mul_div(MAX, MAX, 1, Rounding::Down), None);
    assert_eq!(mul_div(MAX, 2, 1, Rounding::Down), None);
    // Largest quotient that still fits.
    assert_eq!(mul_div(MAX, 2, 2, Rounding::Down), Some(MAX));
    // floor(MAX * (MAX - 1) / MAX) = MAX - 2, remainder forces the ceiling up.
    assert_eq!(mul_div(MAX, MAX - 1, MAX, Rounding::Down), Some(MAX - 1));
    assert_eq!(mul_div(MAX - 1, MAX - 1, MAX, Rounding::Down), Some(MAX - 2));
    assert_eq!(mul_div(MAX - 1, MAX - 1, MAX, Rounding::Up), Some(MAX - 1));
}

#[test]
fn test_bootstrap_identity_values() {
    // Empty pool: conversions are the identity in both directions.
    for amount in [0u128, 1, 999, 1_000_000_000_000, MAX] {
        for round in [Rounding::Down, Rounding::Up] {
            assert_eq!(shares_for_assets(amount, 0, 0, round), Some(amount));
            assert_eq!(assets_for_shares(amount, 0, 0, round), Some(amount));
            // The bootstrap rule keys on issued shares alone.
            assert_eq!(shares_for_assets(amount, 12345, 0, round), Some(amount));
            assert_eq!(assets_for_shares(amount, 12345, 0, round), Some(amount));
        }
    }
}

#[test]
fn test_monotonicity_samples() {
    let pool = [(1000u128, 1000u128), (1000, 999), (7, 3), (MAX, MAX), (MAX - 1, 1000)];
    for &(ta, ts) in pool.iter() {
        for round in [Rounding::Down, Rounding::Up] {
            let mut prev_shares = 0u128;
            let mut prev_assets = 0u128;
            for x in [0u128, 1, 2, 500, 501, 1000, 99999] {
                let s = shares_for_assets(x, ta, ts, round).unwrap();
                assert!(s >= prev_shares, "shares_for_assets not monotone at {}", x);
                prev_shares = s;
                if let Some(a) = assets_for_shares(x, ta, ts, round) {
                    assert!(a >= prev_assets, "assets_for_shares not monotone at {}", x);
                    prev_assets = a;
                }
            }
        }
    }
}

#[test]
fn test_rounding_direction_samples() {
    let pool = [(1000u128, 1000u128), (1000, 999), (7, 3), (MAX, MAX), (0, 0)];
    for &(ta, ts) in pool.iter() {
        for x in [0u128, 1, 500, 501, 999, 1000, 12345] {
            let down = shares_for_assets(x, ta, ts, Rounding::Down).unwrap();
            let up = shares_for_assets(x, ta, ts, Rounding::Up).unwrap();
            assert!(down <= up);
            assert!(up - down <= 1);
            if let (Some(ad), Some(au)) = (
                assets_for_shares(x, ta, ts, Rounding::Down),
                assets_for_shares(x, ta, ts, Rounding::Up),
            ) {
                assert!(ad <= au);
                assert!(au - ad <= 1);
            }
        }
    }
}

#[test]
fn test_no_overflow_near_max() {
    // Conversions at the far end of the range return consistent truncated
    // values instead of panicking or wrapping.
    assert_eq!(shares_for_assets(MAX, MAX, MAX, Rounding::Down), Some(MAX - 1));
    assert_eq!(shares_for_assets(MAX, MAX, MAX, Rounding::Up), Some(MAX));
    assert_eq!(shares_for_assets(1, MAX, MAX, Rounding::Down), Some(0));
    assert_eq!(shares_for_assets(1, MAX, MAX, Rounding::Up), Some(1));
    // A full-supply valuation at MAX assets overflows by exactly one bit and
    // is reported as such.
    assert_eq!(assets_for_shares(MAX, MAX, MAX, Rounding::Down), None);
    assert_eq!(assets_for_shares(MAX - 1, MAX, MAX, Rounding::Down), Some(MAX - 1));
    // Denominator of the rate is total_assets + 1 = 2^128 here.
    assert_eq!(shares_for_assets(MAX, MAX, 1, Rounding::Down), Some(0));
    assert_eq!(shares_for_assets(MAX, MAX, 1, Rounding::Up), Some(1));
}

#[test]
fn test_vault_conversions_near_max() {
    let mut vault = TokenizedMTVault::new(
        "usdt.test".to_string(),
        "token1".to_string(),
        "owner.test".to_string(),
    );
    let whale = "whale.test".to_string();
    let token_ids = vec!["token1".to_string()];
    let amounts = vec![MAX];
    let unused = vault
        .mt_on_transfer(
            &whale,
            &whale,
            &token_ids,
            &amounts,
            None,
            &"usdt.test".to_string(),
        )
        .expect("deposit of MAX should commit");
    assert_eq!(unused[0], 0);
    assert_eq!(vault.total_assets(), MAX);
    assert_eq!(vault.ft_total_supply(), MAX);
    // The view functions keep working at the extreme state.
    assert_eq!(vault.convert_to_shares(MAX), MAX - 1);
    assert_eq!(vault.preview_withdraw(MAX), MAX);
    assert_eq!(vault.convert_to_assets(MAX - 1), MAX - 1);
}

#[test]
fn test_deposit_overflow_aborts() {
    let mut vault = TokenizedMTVault::new(
        "usdt.test".to_string(),
        "token1".to_string(),
        "owner.test".to_string(),
    );
    let whale = "whale.test".to_string();
    let token_ids = vec!["token1".to_string()];
    let unused = vault
        .mt_on_transfer(&whale, &whale, &token_ids, &vec![MAX], None, &"usdt.test".to_string())
        .expect("deposit of MAX should commit");
    assert_eq!(unused[0], 0);
    // A further deposit would push the issued shares past MAX (the share
    // mint happens before the asset credit): the call aborts with no effect.
    let r = vault.mt_on_transfer(
        &whale,
        &whale,
        &token_ids,
        &vec![5u128],
        None,
        &"usdt.test".to_string(),
    );
    assert_eq!(r, Err(VaultError::SharesOverflow));
    assert_eq!(vault.total_assets(), MAX);
    assert_eq!(vault.ft_total_supply(), MAX);
}

#[test]
fn test_deposit_total_assets_overflow_aborts() {
    let mut vault = TokenizedMTVault::new(
        "usdt.test".to_string(),
        "token1".to_string(),
        "owner.test".to_string(),
    );
    let alice = "alice.test".to_string();
    let token_ids = vec!["token1".to_string()];
    vault
        .mt_on_transfer(
            &alice,
            &alice,
            &token_ids,
            &vec![1000u128],
            None,
            &"usdt.test".to_string(),
        )
        .expect("seed deposit");
    // Shares are minted at a discount (the virtual offset), so the share
    // check passes while total_assets + used overflows.
    let r = vault.mt_on_transfer(
        &alice,
        &alice,
        &token_ids,
        &vec![MAX],
        None,
        &"usdt.test".to_string(),
    );
    assert_eq!(r, Err(VaultError::TotalAssetsOverflow));
    assert_eq!(vault.total_assets(), 1000);
    assert_eq!(vault.ft_total_supply(), 1000);
}

#[test]
fn test_redeem_conversion_overflow_aborts() {
    let mut vault = TokenizedMTVault::new(
        "usdt.test".to_string(),
        "token1".to_string(),
        "owner.test".to_string(),
    );
    let whale = "whale.test".to_string();
    let token_ids = vec!["token1".to_string()];
    vault
        .mt_on_transfer(&whale, &whale, &token_ids, &vec![MAX], None, &"usdt.test".to_string())
        .expect("deposit of MAX should commit");
    // Redeeming the full MAX supply values to 2^128 assets, one past u128.
    match vault.redeem(&whale, MAX, None, None) {
        Err(VaultError::ConversionOverflow) => {}
        other => panic!("expected ConversionOverflow, got {:?}", other),
    }
    assert_eq!(vault.total_assets(), MAX);
    assert_eq!(vault.ft_balance_of(&whale), MAX);
}

#[test]
fn test_deposit_conservation() {
    // used + unused == amount in every outcome class.
    let cases: Vec<(u128, Option<DepositMessage>)> = vec![
        (1000, None),
        (1, None),
        (
            1000,
            Some(DepositMessage {
                min_shares: Some(5000),
                max_shares: None,
                receiver_id: None,
                memo: None,
            }),
        ),
        (
            1000,
            Some(DepositMessage {
                min_shares: None,
                max_shares: Some(250),
                receiver_id: None,
                memo: Some("memo".to_string()),
            }),
        ),
    ];
    for (amount, msg) in cases {
        let mut vault = TokenizedMTVault::new(
            "usdt.test".to_string(),
            "token1".to_string(),
            "owner.test".to_string(),
        );
        let alice = "alice.test".to_string();
        let token_ids = vec!["token1".to_string()];
        // Seed the pool so rates are non-trivial.
        vault
            .mt_on_transfer(
                &alice,
                &alice,
                &token_ids,
                &vec![1000u128],
                None,
                &"usdt.test".to_string(),
            )
            .expect("seed deposit");
        let before = vault.total_assets();
        let unused = vault
            .mt_on_transfer(&alice, &alice, &token_ids, &vec![amount], msg, &"usdt.test".to_string())
            .expect("deposit should not abort");
        let used = vault.total_assets() - before;
        assert_eq!(used + unused[0], amount, "conservation violated");
    }
}

#[test]
fn test_withdrawal_atomicity() {
    // Success: shares and assets decreased by exactly the pending amounts and
    // the receiver is owed exactly pending.assets; failure: nothing changed.
    for outcome in [TransferOutcome::Success, TransferOutcome::Failure] {
        let mut vault = TokenizedMTVault::new(
            "usdt.test".to_string(),
            "token1".to_string(),
            "owner.test".to_string(),
        );
        let alice = "alice.test".to_string();
        let token_ids = vec!["token1".to_string()];
        vault
            .mt_on_transfer(
                &alice,
                &alice,
                &token_ids,
                &vec![1000u128],
                None,
                &"usdt.test".to_string(),
            )
            .expect("seed deposit");
        let shares_before = vault.ft_balance_of(&alice);
        let assets_before = vault.total_assets();
        let supply_before = vault.ft_total_supply();
        let mut receiver_external: u128 = 0;

        let pending = vault.redeem(&alice, 300, None, None).expect("redeem should start");
        let settled = vault.resolve_withdraw(
            &pending.owner,
            &pending.receiver,
            pending.shares,
            pending.assets,
            pending.memo.clone(),
            outcome,
        );
        receiver_external += settled;

        match outcome {
            TransferOutcome::Success => {
                assert_eq!(vault.ft_balance_of(&alice), shares_before - pending.shares);
                assert_eq!(vault.ft_total_supply(), supply_before - pending.shares);
                assert_eq!(vault.total_assets(), assets_before - pending.assets);
                assert_eq!(receiver_external, pending.assets);
            }
            TransferOutcome::Failure => {
                assert_eq!(vault.ft_balance_of(&alice), shares_before);
                assert_eq!(vault.ft_total_supply(), supply_before);
                assert_eq!(vault.total_assets(), assets_before);
                assert_eq!(receiver_external, 0);
            }
        }
    }
}

#[test]
fn test_ft_transfer_moves_shares() {
    let mut vault = TokenizedMTVault::new(
        "usdt.test".to_string(),
        "token1".to_string(),
        "owner.test".to_string(),
    );
    let alice = "alice.test".to_string();
    let bob = "bob.test".to_string();
    let token_ids = vec!["token1".to_string()];
    vault
        .mt_on_transfer(
            &alice,
            &alice,
            &token_ids,
            &vec![1000u128],
            None,
            &"usdt.test".to_string(),
        )
        .expect("seed deposit");

    vault.ft_transfer(&alice, &bob, 400, None).expect("transfer should work");
    assert_eq!(vault.ft_balance_of(&alice), 600);
    assert_eq!(vault.ft_balance_of(&bob), 400);
    assert_eq!(vault.ft_total_supply(), 1000);
    assert_eq!(vault.total_assets(), 1000);

    match vault.ft_transfer(&bob, &alice, 500, None) {
        Err(VaultError::InsufficientShares) => {}
        other => panic!("expected InsufficientShares, got {:?}", other),
    }
    assert_eq!(vault.ft_balance_of(&bob), 400);
}

#[test]
fn test_max_redeem_and_max_withdraw() {
    let mut vault = TokenizedMTVault::new(
        "usdt.test".to_string(),
        "token1".to_string(),
        "owner.test".to_string(),
    );
    let alice = "alice.test".to_string();
    let token_ids = vec!["token1".to_string()];
    vault
        .mt_on_transfer(
            &alice,
            &alice,
            &token_ids,
            &vec![1000u128],
            None,
            &"usdt.test".to_string(),
        )
        .expect("seed deposit");

    assert_eq!(vault.max_redeem(&alice), 1000);
    // floor(1000 * 1001 / 1000) = 1001.
    assert_eq!(vault.max_withdraw(&alice), Some(1001));
    assert_eq!(vault.max_redeem(&"stranger.test".to_string()), 0);
    assert_eq!(vault.max_withdraw(&"stranger.test".to_string()), Some(0));
}

#[test]
fn test_share_ledger_basics() {
    let mut ledger = ShareLedger::new();
    let a = "a.test".to_string();
    let b = "b.test".to_string();

    assert_eq!(ledger.total_issued(), 0);
    assert_eq!(ledger.balance_of(&a), 0);

    assert!(ledger.credit(&a, 70));
    assert!(ledger.credit(&b, 30));
    assert_eq!(ledger.balance_of(&a), 70);
    assert_eq!(ledger.balance_of(&b), 30);
    assert_eq!(ledger.total_issued(), 100);

    // The issued total is capped at u128::MAX.
    assert!(!ledger.credit(&a, MAX));
    assert_eq!(ledger.balance_of(&a), 70);
    assert_eq!(ledger.total_issued(), 100);

    assert!(ledger.debit(&a, 70));
    assert_eq!(ledger.balance_of(&a), 0);
    assert_eq!(ledger.total_issued(), 30);
    assert!(!ledger.debit(&a, 1));
    assert!(ledger.debit(&"ghost.test".to_string(), 0));
}

#[test]
fn test_ft_resolve_transfer_refunds() {
    let mut vault = TokenizedMTVault::new(
        "usdt.test".to_string(),
        "token1".to_string(),
        "owner.test".to_string(),
    );
    let alice = "alice.test".to_string();
    let bob = "bob.test".to_string();
    let token_ids = vec!["token1".to_string()];
    vault
        .mt_on_transfer(
            &alice,
            &alice,
            &token_ids,
            &vec![1000u128],
            None,
            &"usdt.test".to_string(),
        )
        .expect("seed deposit");
    vault.ft_transfer(&alice, &bob, 400, None).expect("transfer");

    // The receiver reports 100 shares unused: they come back to the sender.
    let used = vault.ft_resolve_transfer(&alice, &bob, 400, 100);
    assert_eq!(used, 300);
    assert_eq!(vault.ft_balance_of(&alice), 700);
    assert_eq!(vault.ft_balance_of(&bob), 300);
    assert_eq!(vault.ft_total_supply(), 1000);

    // An unused report beyond the transferred amount is capped at the amount,
    // and the refund is capped at what the receiver still holds.
    vault.ft_transfer(&bob, &alice, 250, None).expect("transfer");
    // bob now holds 50; he reports the whole 250 unused but can return 50.
    let used = vault.ft_resolve_transfer(&alice, &bob, 250, 9999);
    assert_eq!(used, 200);
    assert_eq!(vault.ft_balance_of(&bob), 0);
    assert_eq!(vault.ft_balance_of(&alice), 1000);
}

#[test]
fn test_snapshot_restore_round_trip() {
    let mut vault = TokenizedMTVault::new(
        "usdt.test".to_string(),
        "token1".to_string(),
        "owner.test".to_string(),
    );
    let alice = "alice.test".to_string();
    let bob = "bob.test".to_string();
    let token_ids = vec!["token1".to_string()];
    vault
        .mt_on_transfer(
            &alice,
            &alice,
            &token_ids,
            &vec![1000u128],
            None,
            &"usdt.test".to_string(),
        )
        .expect("seed deposit");
    vault.ft_transfer(&alice, &bob, 400, None).expect("transfer");

    // Snapshot the ledger, rebuild it, and restore the vault around it.
    let mut ledger = ShareLedger::new();
    for account in vault.share_accounts().iter() {
        assert!(ledger.credit(&account.id, account.balance));
    }
    let restored = TokenizedMTVault::with_state(
        vault.asset(),
        vault.asset_token_id(),
        "owner.test".to_string(),
        vault.total_assets(),
        ledger,
    )
    .expect("snapshot state is well-formed");

    assert_eq!(restored.total_assets(), vault.total_assets());
    assert_eq!(restored.ft_total_supply(), vault.ft_total_supply());
    assert_eq!(restored.ft_balance_of(&alice), 600);
    assert_eq!(restored.ft_balance_of(&bob), 400);

    // A pair that breaks the standing invariant is refused.
    let mut heavy = ShareLedger::new();
    assert!(heavy.credit(&alice, 10));
    assert!(TokenizedMTVault::with_state(
        "usdt.test".to_string(),
        "token1".to_string(),
        "owner.test".to_string(),
        8,
        heavy,
    )
    .is_none());
}

#[test]
fn test_deposit_structural_rejections() {
    let mut vault = TokenizedMTVault::new(
        "usdt.test".to_string(),
        "token1".to_string(),
        "owner.test".to_string(),
    );
    let alice = "alice.test".to_string();

    // Two token classes in one batch: everything handed back.
    let token_ids = vec!["token1".to_string(), "token2".to_string()];
    let amounts = vec![600u128, 400u128];
    let unused = vault
        .mt_on_transfer(&alice, &alice, &token_ids, &amounts, None, &"usdt.test".to_string())
        .expect("structural mismatch should refund, not abort");
    assert_eq!(unused, vec![600, 400]);
    assert_eq!(vault.total_assets(), 0);
    assert_eq!(vault.ft_total_supply(), 0);
}
