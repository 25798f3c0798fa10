use staking_ledger::decimal::Dec;
use staking_ledger::parameters::PosParams;
use staking_ledger::slash::{Slash, SlashType, Slashes};
use staking_ledger::epoch::Epoch;
use staking_ledger::validator::{
    ActiveValidator, GenesisValidator, PublicKeyTmRawHash, ValidatorSetUpdate, ValidatorState,
    WeightedValidator,
};
use staking_ledger::validator_set::ValidatorSet;

fn weighted(bonded_stake: u64, address: u64) -> WeightedValidator {
    WeightedValidator { bonded_stake, address }
}

fn params(max_validator_slots: u64) -> PosParams {
    PosParams {
        max_validator_slots,
        pipeline_len: 2,
        unbonding_len: 6,
        duplicate_vote_min_slash_rate: Dec { mantissa: 5, scale: 2 },
        light_client_attack_min_slash_rate: Dec { mantissa: 1, scale: 1 },
    }
}

#[test]
fn weighted_validators_rank_by_stake_first() {
    assert!(weighted(1, 9) < weighted(2, 0));
    assert!(weighted(2, 0) > weighted(1, 9));
    assert!(weighted(5, 1) < weighted(5, 2));
    assert!(!(weighted(5, 2) < weighted(5, 2)));
    assert!(weighted(5, 2) <= weighted(5, 2));
    assert!(weighted(5, 2) >= weighted(5, 2));
    assert_eq!(weighted(5, 2), weighted(5, 2));
    assert_ne!(weighted(5, 2), weighted(5, 3));
}

#[test]
fn weighted_validators_sort_as_they_rank() {
    let mut validators = vec![weighted(5, 2), weighted(1, 9), weighted(5, 1), weighted(0, 0)];
    validators.sort();
    assert_eq!(
        validators,
        vec![weighted(0, 0), weighted(1, 9), weighted(5, 1), weighted(5, 2)]
    );
    assert_eq!(weighted(1, 9).cmp(&weighted(2, 0)), std::cmp::Ordering::Less);
    assert_eq!(
        weighted(1, 9).partial_cmp(&weighted(1, 9)),
        Some(std::cmp::Ordering::Equal)
    );
    assert_eq!(
        weighted(3, 0).partial_cmp(&weighted(2, 7)),
        Some(std::cmp::Ordering::Greater)
    );
}

#[test]
fn weighted_validator_is_shown_with_its_stake() {
    assert_eq!(weighted(100, 7).to_string(), "7 with bonded stake 100");
    assert_eq!(weighted(0, 0).to_string(), "0 with bonded stake 0");
}

#[test]
fn only_a_candidate_takes_part() {
    assert!(ValidatorState::Candidate.is_candidate());
    assert!(!ValidatorState::Pending.is_candidate());
    assert!(!ValidatorState::Inactive.is_candidate());
}

#[test]
fn a_pending_validator_becomes_a_candidate() {
    assert_eq!(ValidatorState::Pending.after_pipeline(), ValidatorState::Candidate);
    assert_eq!(ValidatorState::Candidate.after_pipeline(), ValidatorState::Candidate);
    assert_eq!(ValidatorState::Inactive.after_pipeline(), ValidatorState::Inactive);
}

#[test]
fn new_validator_set_is_empty() {
    let set = ValidatorSet::new();
    assert!(set.active.is_empty());
    assert!(set.inactive.is_empty());
}

#[test]
fn recompute_takes_the_top_by_stake() {
    let candidates = vec![
        weighted(10, 1),
        weighted(50, 2),
        weighted(30, 3),
        weighted(20, 4),
        weighted(40, 5),
    ];
    let set = ValidatorSet::recompute(&candidates, &params(2));
    assert_eq!(set.active, vec![weighted(40, 5), weighted(50, 2)]);
    assert_eq!(set.inactive, vec![weighted(10, 1), weighted(20, 4), weighted(30, 3)]);
}

#[test]
fn recompute_breaks_ties_by_address() {
    let candidates = vec![weighted(10, 3), weighted(10, 1), weighted(10, 2)];
    let set = ValidatorSet::recompute(&candidates, &params(1));
    assert_eq!(set.active, vec![weighted(10, 3)]);
    assert_eq!(set.inactive, vec![weighted(10, 1), weighted(10, 2)]);
}

#[test]
fn recompute_does_not_depend_on_the_order_of_the_candidates() {
    let one = vec![weighted(10, 1), weighted(50, 2), weighted(30, 3), weighted(30, 4)];
    let other = vec![weighted(30, 4), weighted(30, 3), weighted(50, 2), weighted(10, 1)];
    let a = ValidatorSet::recompute(&one, &params(2));
    let b = ValidatorSet::recompute(&other, &params(2));
    assert_eq!(a.active, b.active);
    assert_eq!(a.inactive, b.inactive);
    assert_eq!(a.active, vec![weighted(30, 4), weighted(50, 2)]);
}

#[test]
fn recompute_with_slots_to_spare_leaves_none_inactive() {
    let candidates = vec![weighted(10, 1), weighted(50, 2)];
    let set = ValidatorSet::recompute(&candidates, &params(5));
    assert_eq!(set.active, vec![weighted(10, 1), weighted(50, 2)]);
    assert!(set.inactive.is_empty());
    let set = ValidatorSet::recompute(&candidates, &params(2));
    assert_eq!(set.active.len(), 2);
    assert!(set.inactive.is_empty());
    let set = ValidatorSet::recompute(&candidates, &params(u64::MAX));
    assert_eq!(set.active.len(), 2);
}

#[test]
fn recompute_without_slots_leaves_none_active() {
    let candidates = vec![weighted(10, 1), weighted(50, 2)];
    let set = ValidatorSet::recompute(&candidates, &params(0));
    assert!(set.active.is_empty());
    assert_eq!(set.inactive, vec![weighted(10, 1), weighted(50, 2)]);
}

#[test]
fn recompute_without_candidates_is_empty() {
    let set = ValidatorSet::recompute(&Vec::new(), &params(3));
    assert!(set.active.is_empty());
    assert!(set.inactive.is_empty());
}

#[test]
fn recompute_counts_a_candidate_once() {
    let candidates = vec![weighted(10, 1), weighted(10, 1), weighted(5, 2), weighted(10, 1)];
    let set = ValidatorSet::recompute(&candidates, &params(1));
    assert_eq!(set.active, vec![weighted(10, 1)]);
    assert_eq!(set.inactive, vec![weighted(5, 2)]);
}

#[test]
fn recomputed_sets_keep_their_invariant() {
    let mut candidates = Vec::new();
    for i in 0..40u64 {
        candidates.push(weighted((i * 7919) % 13, i));
    }
    for slots in [0u64, 1, 7, 39, 40, 41] {
        let set = ValidatorSet::recompute(&candidates, &params(slots));
        assert!(set.active.len() as u64 <= slots);
        assert_eq!(set.active.len() as u64, slots.min(40));
        assert_eq!(set.active.len() + set.inactive.len(), 40);
        for validator in &set.active {
            assert!(!set.inactive.contains(validator));
            assert!(candidates.contains(validator));
        }
        for validator in &set.inactive {
            assert!(candidates.contains(validator));
        }
        if let (Some(least_active), Some(greatest_inactive)) =
            (set.active.first(), set.inactive.last())
        {
            assert!(least_active.bonded_stake >= greatest_inactive.bonded_stake);
            assert!(greatest_inactive < least_active);
        }
        assert!(set.active.windows(2).all(|pair| pair[0] < pair[1]));
        assert!(set.inactive.windows(2).all(|pair| pair[0] < pair[1]));
    }
}

#[test]
fn membership_is_found_by_address() {
    let candidates = vec![weighted(10, 1), weighted(50, 2), weighted(30, 3)];
    let set = ValidatorSet::recompute(&candidates, &params(1));
    assert!(set.is_active(2));
    assert!(!set.is_active(1));
    assert!(!set.is_active(9));
    assert!(set.is_inactive(1));
    assert!(set.is_inactive(3));
    assert!(!set.is_inactive(2));
    assert!(!set.is_inactive(9));
}

#[test]
fn slash_rate_is_looked_up_in_the_parameters() {
    let params = params(3);
    let rate = SlashType::DuplicateVote.get_slash_rate(&params);
    assert_eq!((rate.mantissa, rate.scale), (5, 2));
    let rate = SlashType::LightClientAttack.get_slash_rate(&params);
    assert_eq!((rate.mantissa, rate.scale), (1, 1));
}

#[test]
fn slash_rate_follows_the_parameters() {
    let mut params = params(3);
    params.duplicate_vote_min_slash_rate = Dec { mantissa: 9, scale: 3 };
    let rate = SlashType::DuplicateVote.get_slash_rate(&params);
    assert_eq!((rate.mantissa, rate.scale), (9, 3));
    let rate = SlashType::LightClientAttack.get_slash_rate(&params);
    assert_eq!((rate.mantissa, rate.scale), (1, 1));
}

#[test]
fn slash_type_is_shown_in_words() {
    assert_eq!(SlashType::DuplicateVote.to_string(), "Duplicate vote");
    assert_eq!(SlashType::LightClientAttack.to_string(), "Light client attack");
}

#[test]
fn slashes_are_kept_in_the_order_they_were_added() {
    let mut slashes: Slashes = Vec::new();
    slashes.push(Slash {
        epoch: Epoch(3),
        block_height: 30,
        slash_type: SlashType::DuplicateVote,
        rate: Dec { mantissa: 5, scale: 2 },
    });
    slashes.push(Slash {
        epoch: Epoch(1),
        block_height: 10,
        slash_type: SlashType::LightClientAttack,
        rate: Dec { mantissa: 1, scale: 1 },
    });
    assert_eq!(slashes.len(), 2);
    assert_eq!(slashes[0].epoch, Epoch(3));
    assert_eq!(slashes[0].slash_type, SlashType::DuplicateVote);
    assert_eq!(slashes[1].block_height, 10);
    assert_eq!(slashes[1].rate.mantissa, 1);
}

struct Key(u8);

impl PublicKeyTmRawHash for Key {
    fn tm_raw_hash(&self) -> String {
        format!("{:02X}", self.0)
    }
}

#[test]
fn validator_records_hold_their_fields() {
    let genesis = GenesisValidator {
        address: 4,
        tokens: 1000,
        consensus_key: Key(0xAB),
        commission_rate: Dec { mantissa: 5, scale: 2 },
        max_commission_rate_change: Dec { mantissa: 1, scale: 2 },
    };
    assert_eq!(genesis.address, 4);
    assert_eq!(genesis.tokens, 1000);
    assert_eq!(genesis.consensus_key.tm_raw_hash(), "AB");
    assert_eq!(genesis.commission_rate.mantissa, 5);
    assert_eq!(genesis.max_commission_rate_change.scale, 2);
    let update = ValidatorSetUpdate::Active(ActiveValidator {
        consensus_key: Key(1),
        bonded_stake: 77,
    });
    match update {
        ValidatorSetUpdate::Active(active) => {
            assert_eq!(active.bonded_stake, 77);
            assert_eq!(active.consensus_key.0, 1);
        }
        ValidatorSetUpdate::Deactivated(_) => panic!("unexpected"),
    }
    match ValidatorSetUpdate::Deactivated(Key(2)) {
        ValidatorSetUpdate::Deactivated(key) => assert_eq!(key.0, 2),
        ValidatorSetUpdate::Active(_) => panic!("unexpected"),
    }
}
