use commitlabs::asset::{AssetBook, AssetError};
use commitlabs::attestation::{AttestationEngineContract, AttestationError};
use commitlabs::ledger::{
    make_commitment_id, validate_rules, CommitmentCoreContract, CommitmentRules, CommitmentStatus,
    CoreError, CoreEvent,
};
use commitlabs::math::{drawdown_percent, exit_penalty, percent_floor};
use commitlabs::nft::{checked_expiry, valid_commitment_id, valid_commitment_type, CommitmentNftContract, NftError};
use commitlabs::pausable::{PauseError, Pausable};
use commitlabs::types::{Address, SECONDS_PER_DAY};

const UNIT: i128 = 1_000_000_000_000;

struct System {
    admin: Address,
    owner: Address,
    other: Address,
    verifier: Address,
    token: Address,
    nft: CommitmentNftContract,
    core: CommitmentCoreContract,
    engine: AttestationEngineContract,
    assets: AssetBook,
    now: u64,
}

fn system() -> System {
    let admin = Address::new(1);
    let core_address = Address::new(2);
    let mut nft = CommitmentNftContract::new();
    nft.initialize(admin).unwrap();
    nft.set_core_contract(admin, core_address).unwrap();
    let mut core = CommitmentCoreContract::new(core_address);
    core.initialize(admin, Address::new(3)).unwrap();
    let mut engine = AttestationEngineContract::new();
    engine.initialize(admin, core_address).unwrap();
    let token = Address::new(100);
    let owner = Address::new(10);
    let mut assets = AssetBook::new();
    assets.deposit(token, owner, UNIT).unwrap();
    System {
        admin,
        owner,
        other: Address::new(11),
        verifier: Address::new(20),
        token,
        nft,
        core,
        engine,
        assets,
        now: 0,
    }
}

fn rules(duration_days: u32, max_loss_percent: u32, kind: &str, penalty: u32) -> CommitmentRules {
    CommitmentRules {
        duration_days,
        max_loss_percent,
        commitment_type: kind.to_string(),
        early_exit_penalty: penalty,
        min_fee_threshold: 1000,
        grace_period_days: 0,
    }
}

fn create(s: &mut System, amount: i128, r: CommitmentRules) -> Result<String, CoreError> {
    s.core.create_commitment(&mut s.nft, &mut s.assets, s.owner, amount, s.token, r, s.now)
}

#[test]
fn create_then_settle_restores_owner_balance() {
    let mut s = system();
    let id = create(&mut s, UNIT, rules(1, 10, "safe", 5)).unwrap();
    assert_eq!(s.nft.total_supply(), 1);
    assert_eq!(s.nft.is_active(0), Ok(true));
    assert_eq!(s.assets.balance(s.token, s.owner), 0);
    assert_eq!(s.nft.transfer(s.owner, s.other, 0, s.now), Err(NftError::NFTLocked));
    s.now += 2 * SECONDS_PER_DAY;
    s.core.settle(&mut s.nft, &mut s.assets, &id, s.now).unwrap();
    assert_eq!(s.nft.is_active(0), Ok(false));
    assert_eq!(s.core.get_commitment(&id).unwrap().status, CommitmentStatus::Settled);
    assert_eq!(s.nft.total_supply(), 1);
    assert_eq!(s.assets.balance(s.token, s.owner), UNIT);
    assert_eq!(s.assets.balance(s.token, s.core.address), 0);
}

#[test]
fn lock_prevents_transfer_until_settle() {
    let mut s = system();
    let id = create(&mut s, UNIT, rules(1, 10, "safe", 5)).unwrap();
    assert_eq!(s.nft.transfer(s.owner, s.other, 0, s.now), Err(NftError::NFTLocked));
    s.now += 2 * SECONDS_PER_DAY;
    s.core.settle(&mut s.nft, &mut s.assets, &id, s.now).unwrap();
    s.nft.transfer(s.owner, s.other, 0, s.now).unwrap();
    assert_eq!(s.nft.owner_of(0), Ok(s.other));
}

#[test]
fn drawdown_beyond_limit_violates() {
    let mut s = system();
    let id = create(&mut s, UNIT, rules(30, 10, "safe", 5)).unwrap();
    s.core.update_value(&mut s.nft, s.admin, &id, 800_000_000_000, s.now).unwrap();
    let c = s.core.get_commitment(&id).unwrap();
    assert_eq!(c.status, CommitmentStatus::Violated);
    assert_eq!(c.current_value, 800_000_000_000);
    assert!(!s.engine.verify_compliance(&s.core, &id));
    // A violated commitment no longer holds its token locked.
    assert_eq!(s.nft.is_active(0), Ok(false));
    match s.core.events.last().unwrap() {
        CoreEvent::Violation { drawdown_percent, .. } => assert_eq!(*drawdown_percent, 20),
        other => panic!("unexpected event {:?}", other),
    }
    // Terminal states refuse further updates.
    assert_eq!(
        s.core.update_value(&mut s.nft, s.admin, &id, UNIT, s.now),
        Err(CoreError::InvalidState)
    );
}

#[test]
fn drawdown_within_limit_keeps_active() {
    let mut s = system();
    let id = create(&mut s, UNIT, rules(30, 10, "safe", 5)).unwrap();
    s.core.update_value(&mut s.nft, s.admin, &id, 900_000_000_000, s.now).unwrap();
    assert_eq!(s.core.get_commitment(&id).unwrap().status, CommitmentStatus::Active);
    assert!(s.engine.verify_compliance(&s.core, &id));
    assert_eq!(s.nft.is_active(0), Ok(true));
}

#[test]
fn update_value_requires_admin() {
    let mut s = system();
    let id = create(&mut s, UNIT, rules(30, 10, "safe", 5)).unwrap();
    let r = s.core.update_value(&mut s.nft, s.owner, &id, 1, s.now);
    assert_eq!(r, Err(CoreError::Unauthorized));
    let r = s.core.update_value(&mut s.nft, s.admin, &"c_99".to_string(), 1, s.now);
    assert_eq!(r, Err(CoreError::CommitmentNotFound));
}

#[test]
fn attest_authorization_order() {
    let mut s = system();
    let id = create(&mut s, UNIT, rules(30, 10, "safe", 5)).unwrap();
    let attest = |s: &mut System, id: &str| {
        s.engine.attest(&s.core, s.verifier, id.to_string(), "health_check".to_string(), Vec::new(), true, s.now)
    };
    assert_eq!(attest(&mut s, &id), Err(AttestationError::Unauthorized));
    // Unauthorized comes before the existence check.
    assert_eq!(attest(&mut s, "missing"), Err(AttestationError::Unauthorized));
    s.engine.add_verifier(s.admin, s.verifier).unwrap();
    assert_eq!(attest(&mut s, &id), Ok(()));
    s.engine.remove_verifier(s.admin, s.verifier).unwrap();
    assert_eq!(attest(&mut s, &id), Err(AttestationError::Unauthorized));
    assert_eq!(s.engine.get_attestation_count(&id), 1);
}

#[test]
fn unknown_attestation_type_is_refused_until_registered() {
    let mut s = system();
    let id = create(&mut s, UNIT, rules(30, 10, "safe", 5)).unwrap();
    s.engine.add_verifier(s.admin, s.verifier).unwrap();
    let r = s.engine.attest(&s.core, s.verifier, id.clone(), "audit".to_string(), Vec::new(), true, 0);
    assert_eq!(r, Err(AttestationError::InvalidAttestationType));
    assert_eq!(
        s.engine.register_attestation_type(s.verifier, "audit".to_string()),
        Err(AttestationError::Unauthorized)
    );
    s.engine.register_attestation_type(s.admin, "audit".to_string()).unwrap();
    let r = s.engine.attest(&s.core, s.verifier, id.clone(), "audit".to_string(), Vec::new(), true, 0);
    assert_eq!(r, Ok(()));
}

#[test]
fn pagination_of_five() {
    let mut s = system();
    let id = create(&mut s, UNIT, rules(30, 10, "safe", 5)).unwrap();
    s.engine.add_verifier(s.admin, s.verifier).unwrap();
    for k in 0..5u64 {
        s.engine
            .attest(&s.core, s.verifier, id.clone(), "health_check".to_string(), Vec::new(), true, 60 * k)
            .unwrap();
    }
    let p = s.engine.get_attestations_page(&id, 0, 2);
    assert_eq!((p.attestations.len(), p.next_offset), (2, 2));
    assert_eq!(p.attestations[1].timestamp, 60);
    let p = s.engine.get_attestations_page(&id, 2, 2);
    assert_eq!((p.attestations.len(), p.next_offset), (2, 4));
    assert_eq!(p.attestations[0].timestamp, 120);
    let p = s.engine.get_attestations_page(&id, 4, 2);
    assert_eq!((p.attestations.len(), p.next_offset), (1, 0));
    let p = s.engine.get_attestations_page(&id, 9, 2);
    assert_eq!((p.attestations.len(), p.next_offset), (0, 0));
}

#[test]
fn supply_conserved_along_transfer_chain() {
    let mut s = system();
    let (a, b, c, d) = (Address::new(50), Address::new(51), Address::new(52), Address::new(53));
    let core = s.core.address;
    let t = s.nft.mint(core, a, "chain".to_string(), 1, 10, "safe".to_string(), 1000, s.token, 5, 0).unwrap();
    s.nft.settle(core, t, 2 * SECONDS_PER_DAY).unwrap();
    let holders = [a, b, c, d];
    for (from, to) in [(a, b), (b, c), (c, d)] {
        s.nft.transfer(from, to, t, 2 * SECONDS_PER_DAY).unwrap();
        assert_eq!(s.nft.total_supply(), 1);
        let sum: u32 = holders.iter().map(|h| s.nft.balance_of(*h)).sum();
        assert_eq!(sum, 1);
        assert_eq!(s.nft.owner_of(t), Ok(to));
    }
}

#[test]
fn double_settle_leaves_state_identical() {
    let mut s = system();
    let core = s.core.address;
    let t = s.nft.mint(core, s.owner, "x".to_string(), 1, 10, "safe".to_string(), 1000, s.token, 5, 0).unwrap();
    s.nft.settle(core, t, 2 * SECONDS_PER_DAY).unwrap();
    let events = s.nft.events.len();
    let supply = s.nft.total_supply();
    let balance = s.nft.balance_of(s.owner);
    assert_eq!(s.nft.settle(core, t, 3 * SECONDS_PER_DAY), Err(NftError::AlreadySettled));
    assert_eq!(s.nft.events.len(), events);
    assert_eq!(s.nft.total_supply(), supply);
    assert_eq!(s.nft.balance_of(s.owner), balance);
    assert_eq!(s.nft.is_active(t), Ok(false));
}

#[test]
fn ledger_double_settle_reports_already_settled() {
    let mut s = system();
    let id = create(&mut s, UNIT, rules(1, 10, "safe", 5)).unwrap();
    s.now = 2 * SECONDS_PER_DAY;
    s.core.settle(&mut s.nft, &mut s.assets, &id, s.now).unwrap();
    let r = s.core.settle(&mut s.nft, &mut s.assets, &id, s.now);
    assert_eq!(r, Err(CoreError::AlreadySettled));
}

#[test]
fn ledger_settle_before_expiry_fails() {
    let mut s = system();
    let id = create(&mut s, UNIT, rules(1, 10, "safe", 5)).unwrap();
    let r = s.core.settle(&mut s.nft, &mut s.assets, &id, SECONDS_PER_DAY - 1);
    assert_eq!(r, Err(CoreError::NotExpired));
}

#[test]
fn mint_then_metadata_round_trip() {
    let mut s = system();
    let core = s.core.address;
    let t = s
        .nft
        .mint(core, s.owner, "round_trip".to_string(), 7, 25, "aggressive".to_string(), 4242, s.token, 9, 500)
        .unwrap();
    let n = s.nft.get_metadata(t).unwrap();
    assert_eq!(n.owner, s.owner);
    assert_eq!(n.metadata.commitment_id, "round_trip");
    assert_eq!(n.metadata.duration_days, 7);
    assert_eq!(n.metadata.max_loss_percent, 25);
    assert_eq!(n.metadata.commitment_type, "aggressive");
    assert_eq!(n.metadata.initial_amount, 4242);
    assert_eq!(n.metadata.asset_address, s.token);
    assert_eq!(n.metadata.early_exit_penalty, 9);
    assert_eq!(n.metadata.created_at, 500);
    assert_eq!(n.metadata.expires_at, 500 + 7 * 86400);
}

#[test]
fn add_then_remove_verifier_restores_set() {
    let mut s = system();
    let before = s.engine.verifiers.clone();
    s.engine.add_verifier(s.admin, s.verifier).unwrap();
    s.engine.add_verifier(s.admin, s.verifier).unwrap();
    assert_eq!(s.engine.verifiers.len(), 1);
    s.engine.remove_verifier(s.admin, s.verifier).unwrap();
    s.engine.remove_verifier(s.admin, s.verifier).unwrap();
    assert_eq!(s.engine.verifiers, before);
    assert_eq!(s.engine.add_verifier(s.owner, s.verifier), Err(AttestationError::Unauthorized));
}

#[test]
fn duration_boundaries() {
    let mut s = system();
    let core = s.core.address;
    let mut m = |d: u32, now: u64| {
        s.nft.mint(core, Address::new(10), "d".to_string(), d, 10, "safe".to_string(), 1, Address::new(100), 0, now)
    };
    assert_eq!(m(0, 0), Err(NftError::InvalidDuration));
    assert_eq!(m(1, 0), Ok(0));
    assert_eq!(m(u32::MAX, 0), Ok(1));
    assert_eq!(m(1, u64::MAX), Err(NftError::InvalidDuration));
    assert_eq!(checked_expiry(0, u32::MAX), Some(u32::MAX as u64 * 86400));
    assert_eq!(checked_expiry(u64::MAX - 86399, 1), None);
    assert_eq!(checked_expiry(u64::MAX - 86400, 1), Some(u64::MAX));
}

#[test]
fn loss_limit_boundaries() {
    let mut s = system();
    let core = s.core.address;
    let mut m = |l: u32| {
        s.nft.mint(core, Address::new(10), "l".to_string(), 1, l, "safe".to_string(), 1, Address::new(100), 0, 0)
    };
    assert!(m(0).is_ok());
    assert!(m(100).is_ok());
    assert_eq!(m(101), Err(NftError::InvalidMaxLoss));
}

#[test]
fn commitment_id_boundaries() {
    assert!(!valid_commitment_id(&String::new()));
    assert!(valid_commitment_id(&"i".repeat(256)));
    assert!(!valid_commitment_id(&"i".repeat(257)));
    assert!(!valid_commitment_id(&"i".repeat(1000)));
}

#[test]
fn commitment_type_is_case_sensitive() {
    for ok in ["safe", "balanced", "aggressive"] {
        assert!(valid_commitment_type(&ok.to_string()));
    }
    for bad in ["Safe", "", "invalid", "BALANCED"] {
        assert!(!valid_commitment_type(&bad.to_string()));
    }
}

#[test]
fn self_transfer_rejected() {
    let mut s = system();
    let core = s.core.address;
    let t = s.nft.mint(core, s.owner, "x".to_string(), 1, 10, "safe".to_string(), 1, s.token, 0, 0).unwrap();
    s.nft.settle(core, t, SECONDS_PER_DAY).unwrap();
    assert_eq!(s.nft.transfer(s.owner, s.owner, t, SECONDS_PER_DAY), Err(NftError::TransferToZeroAddress));
}

#[test]
fn zero_fee_rejected() {
    let mut s = system();
    let id = create(&mut s, UNIT, rules(30, 10, "safe", 5)).unwrap();
    s.engine.add_verifier(s.admin, s.verifier).unwrap();
    assert_eq!(s.engine.record_fees(&s.core, s.verifier, id.clone(), 0, 0), Err(AttestationError::InvalidAmount));
    assert_eq!(s.engine.record_fees(&s.core, s.verifier, id.clone(), -5, 0), Err(AttestationError::InvalidAmount));
    s.engine.record_fees(&s.core, s.verifier, id.clone(), 700, 0).unwrap();
    s.engine.record_fees(&s.core, s.verifier, id.clone(), 800, 10).unwrap();
    let m = s.engine.get_stored_health_metrics(&id).unwrap();
    assert_eq!(m.fees_generated, 1500);
    assert_eq!(m.attestation_count, 2);
    assert_eq!(m.last_attestation, 10);
    assert_eq!(m.initial_value, UNIT);
    let all = s.engine.get_attestations(&id);
    assert_eq!(all[0].attestation_type, "fee_generation");
}

#[test]
fn drawdown_percent_over_100_rejected() {
    let mut s = system();
    let id = create(&mut s, UNIT, rules(30, 10, "safe", 5)).unwrap();
    s.engine.add_verifier(s.admin, s.verifier).unwrap();
    let r = s.engine.record_drawdown(&s.core, s.verifier, id.clone(), 101, 0);
    assert_eq!(r, Err(AttestationError::InvalidPercentage));
    s.engine.record_drawdown(&s.core, s.verifier, id.clone(), 15, 0).unwrap();
    assert_eq!(s.engine.get_health_metrics(&s.core, &id).drawdown_percent, 15);
    assert!(!s.engine.get_attestations(&id)[0].compliant);
    assert!(!s.engine.verify_compliance(&s.core, &id));
}

#[test]
fn early_exit_with_zero_value() {
    let mut s = system();
    let id = create(&mut s, UNIT, rules(30, 100, "balanced", 5)).unwrap();
    s.core.update_value(&mut s.nft, s.admin, &id, 0, s.now).unwrap();
    s.core.early_exit(&mut s.nft, &mut s.assets, &id, s.owner, s.now).unwrap();
    match s.core.events.last().unwrap() {
        CoreEvent::EarlyExit { penalty, returned, .. } => assert_eq!((*penalty, *returned), (0, 0)),
        other => panic!("unexpected event {:?}", other),
    }
    assert_eq!(s.core.get_commitment(&id).unwrap().status, CommitmentStatus::EarlyExit);
    assert_eq!(s.nft.is_active(0), Ok(false));
}

#[test]
fn early_exit_withholds_penalty() {
    let mut s = system();
    let id = create(&mut s, 1000, rules(30, 10, "safe", 5)).unwrap();
    assert_eq!(s.core.early_exit(&mut s.nft, &mut s.assets, &id, s.other, 0), Err(CoreError::Unauthorized));
    s.core.early_exit(&mut s.nft, &mut s.assets, &id, s.owner, 0).unwrap();
    assert_eq!(s.assets.balance(s.token, s.owner), UNIT - 1000 + 950);
    assert_eq!(s.assets.balance(s.token, s.core.address), 50);
    assert_eq!(
        s.core.early_exit(&mut s.nft, &mut s.assets, &id, s.owner, 0),
        Err(CoreError::InvalidState)
    );
}

#[test]
fn create_validation_errors() {
    let mut s = system();
    assert_eq!(create(&mut s, 0, rules(30, 10, "safe", 5)), Err(CoreError::InvalidAmount));
    assert_eq!(create(&mut s, 10, rules(0, 10, "safe", 5)), Err(CoreError::InvalidDuration));
    assert_eq!(create(&mut s, 10, rules(30, 101, "safe", 5)), Err(CoreError::InvalidMaxLoss));
    assert_eq!(create(&mut s, 10, rules(30, 10, "safe", 101)), Err(CoreError::InvalidPenalty));
    assert_eq!(create(&mut s, 10, rules(30, 10, "Safe", 5)), Err(CoreError::InvalidCommitmentType));
    assert_eq!(create(&mut s, UNIT + 1, rules(30, 10, "safe", 5)), Err(CoreError::AssetTransferFailed));
    assert_eq!(validate_rules(&rules(30, 10, "safe", 5)), None);
    assert_eq!(s.nft.total_supply(), 0);
    assert_eq!(s.assets.balance(s.token, s.owner), UNIT);
}

#[test]
fn create_fails_when_registry_not_bound() {
    let mut s = system();
    s.nft.set_core_contract(s.admin, Address::new(77)).unwrap();
    let r = create(&mut s, 10, rules(30, 10, "safe", 5));
    assert_eq!(r, Err(CoreError::Nft(NftError::Unauthorized)));
    assert_eq!(s.assets.balance(s.token, s.owner), UNIT);
}

#[test]
fn commitment_ids_are_sequential() {
    assert_eq!(make_commitment_id(0), "c_0");
    assert_eq!(make_commitment_id(10), "c_10");
    assert_eq!(make_commitment_id(1234567), "c_1234567");
    let mut s = system();
    let a = create(&mut s, 10, rules(30, 10, "safe", 5)).unwrap();
    let b = create(&mut s, 10, rules(30, 10, "safe", 5)).unwrap();
    assert_eq!((a.as_str(), b.as_str()), ("c_0", "c_1"));
}

#[test]
fn created_between_inverted_range_is_empty() {
    let mut s = system();
    create(&mut s, 10, rules(30, 10, "safe", 5)).unwrap();
    assert!(s.core.get_commitments_created_between(5, 1).is_empty());
    assert_eq!(s.core.get_commitments_created_between(0, 0), vec!["c_0".to_string()]);
}

#[test]
fn percentage_arithmetic() {
    assert_eq!(drawdown_percent(UNIT, 800_000_000_000), 20);
    assert_eq!(drawdown_percent(1000, 1000), 0);
    assert_eq!(drawdown_percent(1000, 2000), 0);
    assert_eq!(drawdown_percent(1000, 0), 100);
    assert_eq!(drawdown_percent(1000, -1000), 200);
    assert_eq!(drawdown_percent(3, 2), 33);
    assert_eq!(drawdown_percent(i128::MAX, 0), 100);
    assert_eq!(drawdown_percent(1, i128::MIN), u32::MAX);
    assert_eq!(percent_floor(1, 3), 33);
    assert_eq!(percent_floor(u128::MAX, u128::MAX), 100);
    assert_eq!(exit_penalty(1000, 5), 50);
    assert_eq!(exit_penalty(999, 5), 49);
    assert_eq!(exit_penalty(0, 5), 0);
    assert_eq!(exit_penalty(-10, 5), 0);
    assert_eq!(exit_penalty(i128::MAX, 100), i128::MAX);
}

#[test]
fn compliance_score_weights() {
    let mut s = system();
    let id = create(&mut s, 1000, rules(30, 10, "safe", 5)).unwrap();
    s.engine.add_verifier(s.admin, s.verifier).unwrap();
    assert_eq!(s.engine.calculate_compliance_score(&s.core, &id, 0), 100);
    s.engine.record_drawdown(&s.core, s.verifier, id.clone(), 25, 0).unwrap();
    assert_eq!(s.engine.calculate_compliance_score(&s.core, &id, 0), 70);
    assert_eq!(s.engine.calculate_compliance_score(&s.core, &id, 8 * SECONDS_PER_DAY), 50);
    s.engine.record_fees(&s.core, s.verifier, id.clone(), 5000, 8 * SECONDS_PER_DAY).unwrap();
    assert_eq!(s.engine.calculate_compliance_score(&s.core, &id, 8 * SECONDS_PER_DAY), 75);
    s.engine.record_drawdown(&s.core, s.verifier, id.clone(), 100, 8 * SECONDS_PER_DAY).unwrap();
    assert_eq!(s.engine.calculate_compliance_score(&s.core, &id, 8 * SECONDS_PER_DAY), 0);
    assert_eq!(s.engine.calculate_compliance_score(&s.core, &"nope".to_string(), 0), 0);
}

#[test]
fn paused_operations_refused() {
    let mut s = system();
    s.core.pause(s.admin).unwrap();
    assert_eq!(s.core.pause(s.admin), Err(CoreError::AlreadyPaused));
    assert_eq!(create(&mut s, 10, rules(30, 10, "safe", 5)), Err(CoreError::Paused));
    s.core.unpause(s.admin).unwrap();
    assert_eq!(s.core.unpause(s.admin), Err(CoreError::NotPaused));
    let id = create(&mut s, 10, rules(30, 10, "safe", 5)).unwrap();
    s.engine.add_verifier(s.admin, s.verifier).unwrap();
    s.engine.pause(s.admin).unwrap();
    let r = s.engine.attest(&s.core, s.verifier, id, "health_check".to_string(), Vec::new(), true, 0);
    assert_eq!(r, Err(AttestationError::Paused));
    assert_eq!(s.nft.pause(s.owner), Err(NftError::Unauthorized));
    s.nft.pause(s.admin).unwrap();
    assert_eq!(s.nft.pause(s.admin), Err(NftError::AlreadyPaused));
    s.nft.unpause(s.admin).unwrap();
    assert!(!s.nft.is_paused());
}

#[test]
fn pausable_flag() {
    let mut p = Pausable::new();
    assert!(!p.is_paused());
    assert_eq!(p.require_not_paused(), Ok(()));
    assert_eq!(p.require_paused(), Err(PauseError::NotPaused));
    assert_eq!(p.unpause(), Err(PauseError::NotPaused));
    p.pause().unwrap();
    assert!(p.is_paused());
    assert_eq!(p.pause(), Err(PauseError::AlreadyPaused));
    assert_eq!(p.require_not_paused(), Err(PauseError::Paused));
    assert_eq!(p.require_paused(), Ok(()));
    p.unpause().unwrap();
    assert!(!p.is_paused());
}

#[test]
fn asset_book_transfers() {
    let (a, x, y) = (Address::new(1), Address::new(2), Address::new(3));
    let mut book = AssetBook::new();
    assert_eq!(book.deposit(a, x, -1), Err(AssetError::InvalidAmount));
    book.deposit(a, x, 100).unwrap();
    assert_eq!(book.transfer(a, x, y, 101), Err(AssetError::InsufficientBalance));
    assert_eq!(book.transfer(a, x, y, -1), Err(AssetError::InvalidAmount));
    book.transfer(a, x, y, 40).unwrap();
    assert_eq!((book.balance(a, x), book.balance(a, y)), (60, 40));
    book.transfer(a, x, x, 60).unwrap();
    assert_eq!(book.balance(a, x), 60);
    book.deposit(a, y, i128::MAX - 40).unwrap();
    assert_eq!(book.deposit(a, y, 1), Err(AssetError::Overflow));
    assert_eq!(book.transfer(a, x, y, 1), Err(AssetError::Overflow));
    assert_eq!(book.balance(Address::new(9), x), 0);
}

#[test]
fn attestation_timestamps_per_commitment_ordered() {
    let mut s = system();
    s.assets.deposit(s.token, s.owner, UNIT).unwrap();
    let a = create(&mut s, 10, rules(30, 10, "safe", 5)).unwrap();
    let b = create(&mut s, 10, rules(30, 10, "safe", 5)).unwrap();
    s.engine.add_verifier(s.admin, s.verifier).unwrap();
    for (t, id) in [(1u64, &a), (2, &b), (3, &a), (5, &b), (8, &a)] {
        s.engine.attest(&s.core, s.verifier, id.clone(), "health_check".to_string(), Vec::new(), true, t).unwrap();
    }
    let ts: Vec<u64> = s.engine.get_attestations(&a).iter().map(|x| x.timestamp).collect();
    assert_eq!(ts, vec![1, 3, 8]);
    assert_eq!(s.engine.get_attestation_count(&b), 2);
    let m = s.engine.get_health_metrics(&s.core, &b);
    assert_eq!((m.attestation_count, m.last_attestation), (2, 5));
}
