use stellarflow::address::Address;
use stellarflow::governance::{
    calculate_collected_weight, get_fee_split_config, get_fee_tier, get_fee_tier_config,
    get_governance_config, get_multisig_config, get_signer_weight, get_treasury_vault,
    get_validator_sequence, get_validator_set, rotate_admin_keys, rotate_validators,
    set_fee_split_config, set_fee_tier, set_governance_config, set_multisig_config,
    set_signer_weight, set_treasury_vault, split_collected_fees, verify_block_height,
    verify_staged_delay, verify_upgrade_quorum, ContractData, ContractError, FeeSplitConfig,
    FeeTierConfig, Governance, GovernanceConfig, MultiSigConfig, ProposalState,
    HIGH_FEE_TIER_BPS, LOW_FEE_TIER_BPS, MEDIUM_FEE_TIER_BPS,
};

fn addr(s: &str) -> Address {
    Address::new(s.as_bytes().to_vec())
}

fn gov() -> Governance {
    Governance::new(Some(ContractData { admin: addr("admin") }))
}

/// Governance in which `admin` alone forms a quorum.
fn gov_single() -> Governance {
    let mut g = gov();
    set_governance_config(&mut g, &GovernanceConfig { quorum_threshold: 1 });
    g
}

#[test]
fn test_verify_block_height() {
    assert!(verify_block_height(101, 100));
    assert!(!verify_block_height(100, 100));
    assert!(!verify_block_height(99, 100));
}

#[test]
fn defaults() {
    assert_eq!(GovernanceConfig::default(), GovernanceConfig { quorum_threshold: 2 });
    assert_eq!(MultiSigConfig::default(), MultiSigConfig { required_weight: 1, max_signer_weight: 1 });
    assert_eq!(
        FeeTierConfig::default(),
        FeeTierConfig { fee_tier_bps: 30, low_fee_tier_bps: 5, medium_fee_tier_bps: 30, high_fee_tier_bps: 100 }
    );
    assert_eq!(FeeSplitConfig::default(), FeeSplitConfig { lp_share_bps: 8000, treasury_share_bps: 2000 });
    let g = gov();
    assert!(g.is_well_formed());
    assert_eq!(get_fee_tier(&g), 30);
    assert_eq!(get_validator_sequence(&g), 0);
    assert!(get_treasury_vault(&g).is_none());
    assert_ne!(ProposalState::Pending, ProposalState::Vetoed);
}

#[test]
fn quorum_needs_initialization() {
    let g = Governance::new(None);
    assert_eq!(verify_upgrade_quorum(&g, &vec![addr("admin")]), Err(ContractError::NotInitialized));
}

#[test]
fn quorum_counts_distinct_authorized_signers() {
    let mut g = gov();
    // default threshold is 2 distinct authorized signers
    assert_eq!(verify_upgrade_quorum(&g, &vec![addr("admin")]), Err(ContractError::ThresholdNotReached));
    assert_eq!(
        verify_upgrade_quorum(&g, &vec![addr("admin"), addr("admin")]),
        Err(ContractError::ThresholdNotReached)
    );
    assert_eq!(
        verify_upgrade_quorum(&g, &vec![addr("admin"), addr("stranger")]),
        Err(ContractError::ThresholdNotReached)
    );
    // authorize a second signer through a rotation of the keys
    set_governance_config(&mut g, &GovernanceConfig { quorum_threshold: 1 });
    rotate_admin_keys(&mut g, &vec![addr("admin")], vec![addr("admin"), addr("bob")], 2).unwrap();
    assert_eq!(verify_upgrade_quorum(&g, &vec![addr("admin"), addr("bob")]), Ok(()));
    assert_eq!(
        verify_upgrade_quorum(&g, &vec![addr("bob"), addr("bob"), addr("eve")]),
        Err(ContractError::ThresholdNotReached)
    );
}

#[test]
fn quorum_needs_weight() {
    let mut g = gov_single();
    set_multisig_config(&mut g, &MultiSigConfig { required_weight: 5, max_signer_weight: 10 });
    // admin without a recorded weight counts 1
    assert_eq!(verify_upgrade_quorum(&g, &vec![addr("admin")]), Err(ContractError::ThresholdNotReached));
    set_signer_weight(&mut g, &addr("admin"), 5);
    assert_eq!(verify_upgrade_quorum(&g, &vec![addr("admin")]), Ok(()));
    assert_eq!(calculate_collected_weight(&g, &vec![addr("admin"), addr("admin")], &ContractData { admin: addr("admin") }), Ok(5));
}

#[test]
fn weight_overflow_is_reported() {
    let mut g = gov_single();
    rotate_admin_keys(&mut g, &vec![addr("admin")], vec![addr("admin"), addr("bob")], 1).unwrap();
    set_multisig_config(&mut g, &MultiSigConfig { required_weight: 1, max_signer_weight: u32::MAX });
    set_signer_weight(&mut g, &addr("admin"), u32::MAX);
    set_signer_weight(&mut g, &addr("bob"), 1);
    let signers = vec![addr("admin"), addr("bob")];
    assert_eq!(verify_upgrade_quorum(&g, &signers), Err(ContractError::Overflow));
    let data = ContractData { admin: addr("admin") };
    assert_eq!(calculate_collected_weight(&g, &signers, &data), Err(ContractError::Overflow));
    assert_eq!(calculate_collected_weight(&g, &vec![addr("bob")], &data), Ok(1));
}

#[test]
fn collected_weight_uses_the_given_admin() {
    let g = gov();
    let data = ContractData { admin: addr("other") };
    // "other" is the admin given here, so it counts 1; "admin" is not authorized here
    assert_eq!(calculate_collected_weight(&g, &vec![addr("other"), addr("admin")], &data), Ok(1));
}

#[test]
fn signer_weights_read_back() {
    let mut g = gov();
    set_multisig_config(&mut g, &MultiSigConfig { required_weight: 1, max_signer_weight: 10 });
    assert_eq!(get_signer_weight(&g, &addr("bob")), 0);
    set_signer_weight(&mut g, &addr("bob"), 7);
    set_signer_weight(&mut g, &addr("carol"), 3);
    assert_eq!(get_signer_weight(&g, &addr("bob")), 7);
    set_signer_weight(&mut g, &addr("bob"), 9);
    assert_eq!(get_signer_weight(&g, &addr("bob")), 9);
    set_signer_weight(&mut g, &addr("bob"), 0);
    assert_eq!(get_signer_weight(&g, &addr("bob")), 0);
    assert_eq!(get_signer_weight(&g, &addr("carol")), 3);
}

#[test]
fn rotation_hands_over_control() {
    let mut g = gov_single();
    set_multisig_config(&mut g, &MultiSigConfig { required_weight: 1, max_signer_weight: 0 });
    let new = vec![addr("x"), addr("y"), addr("x"), addr("z")];
    assert_eq!(rotate_admin_keys(&mut g, &vec![addr("admin")], new.clone(), 3), Ok(()));
    assert_eq!(get_governance_config(&g), GovernanceConfig { quorum_threshold: 3 });
    assert_eq!(get_multisig_config(&g), MultiSigConfig { required_weight: 3, max_signer_weight: 1 });
    assert_eq!(g.data.as_ref().unwrap().admin.to_bytes(), b"x".to_vec());
    assert_eq!(get_signer_weight(&g, &addr("y")), 1);
    assert_eq!(verify_upgrade_quorum(&g, &new), Ok(()));
    assert_eq!(verify_upgrade_quorum(&g, &vec![addr("admin")]), Err(ContractError::ThresholdNotReached));
}

#[test]
fn rotation_threshold_must_fit() {
    let mut g = gov_single();
    let r = rotate_admin_keys(&mut g, &vec![addr("admin")], vec![addr("x"), addr("x")], 2);
    assert_eq!(r, Err(ContractError::InvalidThreshold));
    let r = rotate_admin_keys(&mut g, &vec![addr("admin")], vec![addr("x")], 0);
    assert_eq!(r, Err(ContractError::InvalidThreshold));
    let r = rotate_admin_keys(&mut g, &vec![addr("admin")], vec![], 1);
    assert_eq!(r, Err(ContractError::InvalidThreshold));
    assert_eq!(g.data.as_ref().unwrap().admin.to_bytes(), b"admin".to_vec());
    let r = rotate_admin_keys(&mut g, &vec![addr("nobody")], vec![addr("x")], 1);
    assert_eq!(r, Err(ContractError::ThresholdNotReached));
}

#[test]
fn validators_rotate_with_a_counter() {
    let mut g = gov_single();
    let k1 = [1u8; 32];
    let k2 = [2u8; 32];
    assert_eq!(rotate_validators(&mut g, &vec![addr("admin")], vec![k1, k2, k1]), Ok(1));
    let set = get_validator_set(&g);
    assert_eq!(set.len(), 2);
    assert!(set.contains(&k1) && set.contains(&k2));
    assert_eq!(rotate_validators(&mut g, &vec![addr("admin")], vec![k2]), Ok(2));
    assert_eq!(get_validator_set(&g), vec![k2]);
    assert_eq!(rotate_validators(&mut g, &vec![addr("bob")], vec![k1]), Err(ContractError::ThresholdNotReached));
    assert_eq!(get_validator_sequence(&g), 2);
    g.validator_sequence = u64::MAX;
    assert_eq!(rotate_validators(&mut g, &vec![addr("admin")], vec![k1]), Err(ContractError::Overflow));
    assert_eq!(get_validator_set(&g), vec![k2]);
}

#[test]
fn fee_tier_only_takes_configured_tiers() {
    let mut g = gov_single();
    assert_eq!(set_fee_tier(&mut g, &vec![addr("admin")], 42), Err(ContractError::InvalidThreshold));
    assert_eq!(get_fee_tier(&g), MEDIUM_FEE_TIER_BPS);
    assert_eq!(set_fee_tier(&mut g, &vec![addr("admin")], HIGH_FEE_TIER_BPS), Ok(()));
    assert_eq!(get_fee_tier(&g), 100);
    assert_eq!(set_fee_tier(&mut g, &vec![addr("admin")], LOW_FEE_TIER_BPS), Ok(()));
    assert_eq!(get_fee_tier_config(&g).fee_tier_bps, 5);
    assert_eq!(get_fee_tier_config(&g).high_fee_tier_bps, 100);
    assert_eq!(set_fee_tier(&mut g, &vec![], 30), Err(ContractError::ThresholdNotReached));
    assert!(g.is_well_formed());
}

#[test]
fn fee_split_must_add_up() {
    let mut g = gov_single();
    assert_eq!(set_fee_split_config(&mut g, &vec![addr("admin")], 7000, 2000), Err(ContractError::InvalidThreshold));
    assert_eq!(set_fee_split_config(&mut g, &vec![addr("admin")], u32::MAX, 10001), Err(ContractError::InvalidThreshold));
    assert_eq!(set_fee_split_config(&mut g, &vec![addr("admin")], 6000, 4000), Ok(()));
    assert_eq!(get_fee_split_config(&g), FeeSplitConfig { lp_share_bps: 6000, treasury_share_bps: 4000 });
    assert_eq!(split_collected_fees(&g, 12345), Ok((7407, 4938)));
}

#[test]
fn split_collected_fees_rounds_down() {
    let g = gov();
    assert_eq!(split_collected_fees(&g, 10000), Ok((8000, 2000)));
    assert_eq!(split_collected_fees(&g, 7), Ok((5, 1)));
    assert_eq!(split_collected_fees(&g, 0), Ok((0, 0)));
    assert_eq!(split_collected_fees(&g, u128::MAX), Err(ContractError::Overflow));
}

#[test]
fn treasury_vault_reads_back() {
    let mut g = gov_single();
    assert_eq!(set_treasury_vault(&mut g, &vec![addr("eve")], addr("vault")), Err(ContractError::ThresholdNotReached));
    assert!(get_treasury_vault(&g).is_none());
    assert_eq!(set_treasury_vault(&mut g, &vec![addr("admin")], addr("vault")), Ok(()));
    assert_eq!(get_treasury_vault(&g).unwrap().to_bytes(), b"vault".to_vec());
}

#[test]
fn staged_delay() {
    assert!(verify_staged_delay(100, 200, 100));
    assert!(!verify_staged_delay(100, 199, 100));
    assert!(!verify_staged_delay(300, 100, 1));
    assert!(verify_staged_delay(300, 100, 0));
    assert!(verify_staged_delay(0, u64::MAX, u64::MAX));
}

#[test]
fn well_formedness_of_stored_state() {
    let mut g = gov();
    g.fee_split_config = FeeSplitConfig { lp_share_bps: 5000, treasury_share_bps: 4000 };
    assert!(!g.is_well_formed());
    let mut g = gov();
    g.fee_tier_config.fee_tier_bps = 31;
    assert!(!g.is_well_formed());
}

#[test]
fn signer_weight_is_capped_at_the_maximum() {
    let mut g = gov();
    // the default maximum weight is 1
    set_signer_weight(&mut g, &addr("bob"), 5);
    assert_eq!(get_signer_weight(&g, &addr("bob")), 1);
    set_multisig_config(&mut g, &MultiSigConfig { required_weight: 1, max_signer_weight: 4 });
    set_signer_weight(&mut g, &addr("bob"), 5);
    assert_eq!(get_signer_weight(&g, &addr("bob")), 4);
    set_signer_weight(&mut g, &addr("bob"), 3);
    assert_eq!(get_signer_weight(&g, &addr("bob")), 3);
    set_multisig_config(&mut g, &MultiSigConfig { required_weight: 1, max_signer_weight: 2 });
    // lowering the maximum lowers what a signer holds
    assert_eq!(get_signer_weight(&g, &addr("bob")), 2);
    set_multisig_config(&mut g, &MultiSigConfig { required_weight: 1, max_signer_weight: 0 });
    assert_eq!(get_signer_weight(&g, &addr("bob")), 0);
    set_signer_weight(&mut g, &addr("carol"), 2);
    assert_eq!(get_signer_weight(&g, &addr("carol")), 0);
}

#[test]
fn lowered_maximum_caps_quorum_weight() {
    let mut g = gov_single();
    rotate_admin_keys(&mut g, &vec![addr("admin")], vec![addr("admin"), addr("bob")], 1).unwrap();
    set_multisig_config(&mut g, &MultiSigConfig { required_weight: 1, max_signer_weight: 9 });
    set_signer_weight(&mut g, &addr("bob"), 9);
    let data = ContractData { admin: addr("admin") };
    assert_eq!(calculate_collected_weight(&g, &vec![addr("bob")], &data), Ok(9));
    set_multisig_config(&mut g, &MultiSigConfig { required_weight: 1, max_signer_weight: 4 });
    assert_eq!(calculate_collected_weight(&g, &vec![addr("bob")], &data), Ok(4));
}

#[test]
fn validator_set_is_listed_in_byte_order() {
    let mut g = gov_single();
    let mut k1 = [0u8; 32];
    k1[31] = 9;
    let mut k2 = [0u8; 32];
    k2[0] = 1;
    let k3 = [0u8; 32];
    rotate_validators(&mut g, &vec![addr("admin")], vec![k2, k1, k3, k2]).unwrap();
    assert_eq!(get_validator_set(&g), vec![k3, k1, k2]);
}

#[test]
fn quorum_depends_only_on_who_signs() {
    let mut g = gov_single();
    rotate_admin_keys(&mut g, &vec![addr("admin")], vec![addr("a"), addr("b"), addr("c")], 2).unwrap();
    let one = verify_upgrade_quorum(&g, &vec![addr("a"), addr("b")]);
    let two = verify_upgrade_quorum(&g, &vec![addr("b"), addr("a"), addr("b"), addr("a")]);
    assert_eq!(one, Ok(()));
    assert_eq!(one, two);
    let three = verify_upgrade_quorum(&g, &vec![addr("c"), addr("c")]);
    let four = verify_upgrade_quorum(&g, &vec![addr("c")]);
    assert_eq!(three, Err(ContractError::ThresholdNotReached));
    assert_eq!(three, four);
}

#[test]
fn more_signers_keep_a_quorum() {
    let mut g = gov_single();
    rotate_admin_keys(&mut g, &vec![addr("admin")], vec![addr("a"), addr("b"), addr("c")], 2).unwrap();
    assert_eq!(verify_upgrade_quorum(&g, &vec![addr("a"), addr("b")]), Ok(()));
    assert_eq!(verify_upgrade_quorum(&g, &vec![addr("a"), addr("b"), addr("c"), addr("zed")]), Ok(()));
}

#[test]
fn after_rotation_only_new_signers_count() {
    let mut g = gov_single();
    rotate_admin_keys(&mut g, &vec![addr("admin")], vec![addr("x"), addr("y"), addr("z")], 2).unwrap();
    // the old admin is no longer authorized
    assert_eq!(verify_upgrade_quorum(&g, &vec![addr("x"), addr("admin")]), Err(ContractError::ThresholdNotReached));
    assert_eq!(verify_upgrade_quorum(&g, &vec![addr("x"), addr("x")]), Err(ContractError::ThresholdNotReached));
    assert_eq!(verify_upgrade_quorum(&g, &vec![addr("z"), addr("admin"), addr("y")]), Ok(()));
}

#[test]
fn fee_split_rounding_keeps_back_at_most_one() {
    let g = gov();
    let (lp, treasury) = split_collected_fees(&g, 9).unwrap();
    assert_eq!((lp, treasury), (7, 1));
    assert!(lp + treasury <= 9 && 9 <= lp + treasury + 1);
}
