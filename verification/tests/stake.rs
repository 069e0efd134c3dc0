use stake_core::contract_id::{stake_contract, transfer_contract, ContractId};
use stake_core::events::hash_events;
use stake_core::keys::PublicKey;
use stake_core::ledger::{
    assert_external_caller, assert_transfer_caller, confiscate, Error, Operation, Receipt, Request,
    StakeData, StakeState, StakingEvent, Topic, MINIMUM_STAKE,
};
use stake_core::wire::{stake_signature_message, unstake_signature_message, withdraw_signature_message};

const GENESIS_VALUE: u64 = 1_000_000_000_000_000;

fn dusk(value: f64) -> u64 {
    (value * 1e9) as u64
}

fn key(n: u8) -> PublicKey {
    let mut bytes = [0u8; 96];
    bytes[0] = n;
    PublicKey::from_bytes(bytes)
}

fn outside() -> ContractId {
    ContractId::uninitialized()
}

fn assert_event(receipt: &Receipt, topic: &str, pk: &PublicKey, value: u64) {
    assert_eq!(receipt.event.topic.name(), topic.as_bytes().to_vec());
    assert_eq!(&receipt.event.public_key, pk);
    assert_eq!(receipt.event.value, value);
    let event = receipt.event.to_event();
    assert_eq!(event.source, stake_contract());
    assert_eq!(event.topic, topic.as_bytes().to_vec());
    let mut data = pk.to_bytes().to_vec();
    data.extend_from_slice(&value.to_le_bytes());
    assert_eq!(event.data, data);
}

#[test]
fn reward_slash() {
    let pk = key(5);
    let mut state = StakeState::new(1);

    let reward_amount = dusk(10.0);
    let slash_amount = dusk(5.0);

    let receipt = state.reward(&outside(), pk, reward_amount).expect("rewarding should succeed");
    assert_event(&receipt, "reward", &pk, reward_amount);

    let receipt = state.slash(&outside(), pk, slash_amount).expect("slashing should succeed");
    assert_event(&receipt, "slash", &pk, slash_amount);

    let record = state.get_stake(&pk).expect("the record should exist");
    assert_eq!(record.reward, dusk(5.0));
    assert_eq!(state.slashed_amount(), dusk(5.0));
}

#[test]
fn stake_hard_slash() {
    let pk = key(5);
    let mut state = StakeState::new(1);

    let balance = dusk(14.0);
    let hard_slash_amount = dusk(5.0);
    let block_height = 0;

    let stake_data = StakeData { reward: 0, amount: Some((balance, block_height)), counter: 0 };

    state.insert_stake(&outside(), pk, stake_data).expect("inserting should succeed");

    let receipt =
        state.hard_slash(&outside(), pk, hard_slash_amount).expect("slashing should succeed");
    assert_event(&receipt, "hard_slash", &pk, hard_slash_amount);

    let record = state.get_stake(&pk).expect("the record should exist");
    assert_eq!(record.amount, Some((dusk(9.0), 0)));
    assert_eq!(state.slashed_amount(), dusk(5.0));
}

#[test]
fn stake_withdraw_unstake() {
    let pk = key(9);
    let mut state = StakeState::new(1);
    let transfer = transfer_contract();

    let input_value = GENESIS_VALUE;
    let crossover_value = input_value / 2;

    let stake_digest = stake_signature_message(0, crossover_value);
    assert_eq!(stake_digest.len(), 16);

    let receipt = state
        .stake(&transfer, pk, crossover_value, 0, 0, true)
        .expect("Executed TX should not error");
    assert_eq!(receipt.paid_in, crossover_value);
    assert_event(&receipt, "stake", &pk, crossover_value);

    let stake_data = state.get_stake(&pk).expect("The stake should exist");
    let (amount, _) = stake_data.amount.expect("There should be an amount staked");

    assert_eq!(amount, crossover_value, "Staked amount should match sent amount");
    assert_eq!(stake_data.reward, 0, "Initial reward should be zero");
    assert_eq!(stake_data.counter, 1, "Counter should increment once");

    // Add a reward to the staked key

    const REWARD_AMOUNT: u64 = 5_000_000_000;

    state.reward(&outside(), pk, REWARD_AMOUNT).expect("Rewarding a key should succeed");

    let stake_data = state.get_stake(&pk).expect("The stake should exist");
    let (amount, _) = stake_data.amount.expect("There should be an amount staked");

    assert_eq!(amount, crossover_value, "Staked amount should match sent amount");
    assert_eq!(stake_data.reward, REWARD_AMOUNT, "Reward should be set to specified amount");
    assert_eq!(stake_data.counter, 1, "Counter should increment once");

    // Start withdrawing the reward just given to our key

    let withdraw_digest = withdraw_signature_message(stake_data.counter, &[3u8; 64], &[4u8; 32]);
    assert_eq!(withdraw_digest.len(), 8 + 64 + 32);

    let receipt = state
        .withdraw(&transfer, pk, stake_data.counter, true)
        .expect("Executed TX should not error");
    assert_eq!(receipt.paid_out, REWARD_AMOUNT);
    assert_event(&receipt, "withdraw", &pk, REWARD_AMOUNT);

    let stake_data = state.get_stake(&pk).expect("The stake should exist");
    let (amount, _) = stake_data.amount.expect("There should be an amount staked");

    assert_eq!(amount, crossover_value, "Staked amount should match sent amount");
    assert_eq!(stake_data.reward, 0, "Reward should be set to zero");
    assert_eq!(stake_data.counter, 2, "Counter should increment once");

    // Start unstaking the previously staked amount

    let unstake_digest = unstake_signature_message(stake_data.counter, &[8u8; 100]);
    assert_eq!(unstake_digest.len(), 108);

    let receipt = state
        .unstake(&transfer, pk, stake_data.counter, true)
        .expect("Executed TX should not error");
    assert_eq!(receipt.paid_out, crossover_value);
    assert_event(&receipt, "unstake", &pk, crossover_value);

    let stake_data = state.get_stake(&pk).expect("The record should stay");
    assert_eq!(stake_data.amount, None);
    assert_eq!(stake_data.staked_amount(), 0);
    assert_eq!(stake_data.reward, 0);
    assert_eq!(stake_data.counter, 3);
}

#[test]
fn stake_with_counter_zero_then_replay_is_refused() {
    let pk = key(1);
    let mut state = StakeState::new(1);
    let transfer = transfer_contract();
    state.stake(&transfer, pk, MINIMUM_STAKE, 3, 0, true).expect("the first deposit is accepted");
    let before = state.get_stake(&pk);
    assert_eq!(before, Some(StakeData { amount: Some((MINIMUM_STAKE, 3)), reward: 0, counter: 1 }));
    // the same signed message again
    assert_eq!(state.stake(&transfer, pk, MINIMUM_STAKE, 3, 0, true), Err(Error::Replay));
    assert_eq!(state.get_stake(&pk), before);
    assert_eq!(state.withdraw(&transfer, pk, 0, true), Err(Error::Replay));
    assert_eq!(state.unstake(&transfer, pk, 2, true), Err(Error::Replay));
    assert_eq!(state.get_stake(&pk), before);
    assert_eq!(state.len(), 1);
}

#[test]
fn only_the_transfer_contract_may_stake_withdraw_and_unstake() {
    let pk = key(1);
    let mut state = StakeState::new(1);
    for caller in [outside(), stake_contract(), ContractId::from_bytes([9u8; 32])] {
        assert_eq!(state.stake(&caller, pk, MINIMUM_STAKE, 0, 0, true), Err(Error::Unauthorized));
        assert_eq!(state.withdraw(&caller, pk, 0, true), Err(Error::Unauthorized));
        assert_eq!(state.unstake(&caller, pk, 0, true), Err(Error::Unauthorized));
    }
    assert_eq!(state.len(), 0);
    assert_eq!(assert_transfer_caller(&transfer_contract()), Ok(()));
    assert_eq!(assert_transfer_caller(&outside()), Err(Error::Unauthorized));
}

#[test]
fn only_a_call_from_outside_may_reward_slash_and_insert() {
    let pk = key(1);
    let mut state = StakeState::new(1);
    let record = StakeData { amount: Some((5, 0)), reward: 1, counter: 0 };
    for caller in [transfer_contract(), stake_contract(), ContractId::from_bytes([9u8; 32])] {
        assert_eq!(state.reward(&caller, pk, 1), Err(Error::Unauthorized));
        assert_eq!(state.slash(&caller, pk, 1), Err(Error::Unauthorized));
        assert_eq!(state.hard_slash(&caller, pk, 1), Err(Error::Unauthorized));
        assert_eq!(state.insert_stake(&caller, pk, record), Err(Error::Unauthorized));
        assert_eq!(state.set_slashed_amount(&caller, 7), Err(Error::Unauthorized));
    }
    assert_eq!(state.len(), 0);
    assert_eq!(state.slashed_amount(), 0);
    assert_eq!(assert_external_caller(&outside()), Ok(()));
    assert_eq!(assert_external_caller(&transfer_contract()), Err(Error::Unauthorized));
    assert_eq!(state.set_slashed_amount(&outside(), 7), Ok(()));
    assert_eq!(state.slashed_amount(), 7);
}

#[test]
fn deposit_below_the_minimum_is_refused() {
    let pk = key(1);
    let mut state = StakeState::new(1);
    let transfer = transfer_contract();
    assert_eq!(MINIMUM_STAKE, 1_000 * 1_000_000_000);
    assert_eq!(
        state.stake(&transfer, pk, MINIMUM_STAKE - 1, 0, 0, true),
        Err(Error::InsufficientStake)
    );
    assert_eq!(state.get_stake(&pk), None);
    assert!(state.stake(&transfer, pk, MINIMUM_STAKE, 0, 0, true).is_ok());
}

#[test]
fn unauthenticated_request_is_refused() {
    let pk = key(1);
    let mut state = StakeState::new(1);
    let transfer = transfer_contract();
    assert_eq!(
        state.stake(&transfer, pk, MINIMUM_STAKE, 0, 0, false),
        Err(Error::InvalidSignature)
    );
    state.stake(&transfer, pk, MINIMUM_STAKE, 0, 0, true).expect("accepted");
    state.reward(&outside(), pk, 5).expect("accepted");
    assert_eq!(state.withdraw(&transfer, pk, 1, false), Err(Error::InvalidSignature));
    assert_eq!(state.unstake(&transfer, pk, 1, false), Err(Error::InvalidSignature));
    assert_eq!(
        state.get_stake(&pk),
        Some(StakeData { amount: Some((MINIMUM_STAKE, 0)), reward: 5, counter: 1 })
    );
}

#[test]
fn nothing_to_withdraw_and_nothing_to_unstake() {
    let pk = key(1);
    let mut state = StakeState::new(1);
    let transfer = transfer_contract();
    assert_eq!(state.withdraw(&transfer, pk, 0, true), Err(Error::NoReward));
    assert_eq!(state.unstake(&transfer, pk, 0, true), Err(Error::NoStake));
    state.reward(&outside(), pk, 5).expect("accepted");
    assert_eq!(state.unstake(&transfer, pk, 0, true), Err(Error::NoStake));
    assert_eq!(state.withdraw(&transfer, pk, 0, true).map(|r| r.paid_out), Ok(5));
    assert_eq!(state.withdraw(&transfer, pk, 1, true), Err(Error::NoReward));
    assert_eq!(state.get_stake(&pk), Some(StakeData { amount: None, reward: 0, counter: 1 }));
}

#[test]
fn amounts_beyond_64_bits_are_refused() {
    let pk = key(1);
    let mut state = StakeState::new(1);
    let transfer = transfer_contract();
    state.reward(&outside(), pk, u64::MAX).expect("accepted");
    assert_eq!(state.reward(&outside(), pk, 1), Err(Error::Overflow));
    state.stake(&transfer, pk, u64::MAX - 5, 0, 0, true).expect("accepted");
    assert_eq!(state.stake(&transfer, pk, MINIMUM_STAKE, 0, 1, true), Err(Error::Overflow));
    state.slash(&outside(), pk, u64::MAX).expect("accepted");
    assert_eq!(state.slashed_amount(), u64::MAX);
    assert_eq!(state.hard_slash(&outside(), pk, 1), Err(Error::Overflow));
    assert_eq!(state.hard_slash(&outside(), key(2), 1).map(|r| r.event.value), Ok(0));
    let worn = StakeData { amount: Some((MINIMUM_STAKE, 0)), reward: 1, counter: u64::MAX };
    state.insert_stake(&outside(), key(3), worn).expect("accepted");
    assert_eq!(state.unstake(&transfer, key(3), u64::MAX, true), Err(Error::Overflow));
    assert_eq!(state.withdraw(&transfer, key(3), u64::MAX, true), Err(Error::Overflow));
    assert_eq!(state.stake(&transfer, key(3), MINIMUM_STAKE, 0, u64::MAX, true), Err(Error::Overflow));
}

#[test]
fn reward_lands_on_a_key_that_never_staked() {
    let pk = key(7);
    let mut state = StakeState::new(1);
    let receipt = state.reward(&outside(), pk, 11).expect("accepted");
    assert_eq!(receipt.paid_in, 11);
    assert_eq!(state.get_stake(&pk), Some(StakeData { amount: None, reward: 11, counter: 0 }));
    state.reward(&outside(), pk, 4).expect("accepted");
    assert_eq!(state.get_stake(&pk), Some(StakeData { amount: None, reward: 15, counter: 0 }));
}

#[test]
fn second_deposit_adds_to_the_amount_and_keeps_the_round() {
    let pk = key(7);
    let mut state = StakeState::new(1);
    let transfer = transfer_contract();
    state.stake(&transfer, pk, MINIMUM_STAKE, 10, 0, true).expect("accepted");
    state.stake(&transfer, pk, MINIMUM_STAKE + 1, 20, 1, true).expect("accepted");
    assert_eq!(
        state.get_stake(&pk),
        Some(StakeData { amount: Some((2 * MINIMUM_STAKE + 1, 10)), reward: 0, counter: 2 })
    );
    state.unstake(&transfer, pk, 2, true).expect("accepted");
    state.stake(&transfer, pk, MINIMUM_STAKE, 30, 3, true).expect("accepted");
    assert_eq!(
        state.get_stake(&pk),
        Some(StakeData { amount: Some((MINIMUM_STAKE, 30)), reward: 0, counter: 4 })
    );
}

#[test]
fn slash_takes_the_reward_first_and_then_the_amount() {
    let record = StakeData { amount: Some((100, 3)), reward: 30, counter: 4 };
    let cases = [
        (0u64, 30u64, 100u64, 0u64),
        (20, 10, 100, 20),
        (30, 0, 100, 30),
        (50, 0, 80, 50),
        (130, 0, 0, 130),
        (500, 0, 0, 130),
    ];
    for (value, reward, amount, taken) in cases {
        let (left, got) = confiscate(&record, value, false);
        assert_eq!(left, StakeData { amount: Some((amount, 3)), reward, counter: 4 }, "{value}");
        assert_eq!(got, taken);
    }
}

#[test]
fn hard_slash_takes_the_amount_first_and_then_the_reward() {
    let record = StakeData { amount: Some((100, 3)), reward: 30, counter: 4 };
    let cases = [
        (0u64, 30u64, 100u64, 0u64),
        (20, 30, 80, 20),
        (100, 30, 0, 100),
        (110, 20, 0, 110),
        (130, 0, 0, 130),
        (500, 0, 0, 130),
    ];
    for (value, reward, amount, taken) in cases {
        let (left, got) = confiscate(&record, value, true);
        assert_eq!(left, StakeData { amount: Some((amount, 3)), reward, counter: 4 }, "{value}");
        assert_eq!(got, taken);
    }
    let bare = StakeData { amount: None, reward: 30, counter: 4 };
    assert_eq!(confiscate(&bare, 40, true), (StakeData { amount: None, reward: 0, counter: 4 }, 30));
}

#[test]
fn slash_below_the_floor_keeps_the_record() {
    let pk = key(1);
    let coin = 1_000_000_000u64;
    let mut state = StakeState::new(1);
    let record = StakeData { amount: Some((1200 * coin, 0)), reward: 0, counter: 0 };
    state.insert_stake(&outside(), pk, record).expect("accepted");
    let receipt = state.hard_slash(&outside(), pk, 300 * coin).expect("accepted");
    assert_eq!(receipt.event.value, 300 * coin);
    let left = state.get_stake(&pk).expect("the record stays on the ledger");
    assert_eq!(left.amount, Some((900 * coin, 0)));
    assert!(left.staked_amount() < MINIMUM_STAKE);
    assert_eq!(state.slashed_amount(), 300 * coin);
}

#[test]
fn slash_of_an_unknown_key_writes_no_record() {
    let mut state = StakeState::new(1);
    let receipt = state.slash(&outside(), key(1), 10).expect("accepted");
    assert_eq!(receipt.event.value, 0);
    assert_eq!(state.len(), 0);
    assert_eq!(state.slashed_amount(), 0);
}

#[test]
fn counter_rises_by_one_with_each_request_of_the_validator() {
    let pk = key(1);
    let mut state = StakeState::new(1);
    let transfer = transfer_contract();
    let counter = |state: &StakeState| state.get_stake(&pk).map(|r| r.counter).unwrap_or(0);
    assert_eq!(counter(&state), 0);
    state.stake(&transfer, pk, MINIMUM_STAKE, 0, 0, true).expect("accepted");
    assert_eq!(counter(&state), 1);
    state.reward(&outside(), pk, 9).expect("accepted");
    state.slash(&outside(), pk, 1).expect("accepted");
    state.hard_slash(&outside(), pk, 1).expect("accepted");
    assert_eq!(counter(&state), 1);
    state.withdraw(&transfer, pk, 1, true).expect("accepted");
    assert_eq!(counter(&state), 2);
    state.unstake(&transfer, pk, 2, true).expect("accepted");
    assert_eq!(counter(&state), 3);
    assert_eq!(state.unstake(&transfer, pk, 3, true), Err(Error::NoStake));
    assert_eq!(counter(&state), 3);
}

fn value_held(state: &StakeState) -> u128 {
    let locked: u128 =
        state.stakes().iter().map(|(_, r)| r.staked_amount() as u128 + r.reward as u128).sum();
    locked + state.slashed_amount() as u128
}

#[test]
fn value_is_conserved_over_a_sequence_of_requests() {
    let transfer = transfer_contract();
    let mut state = StakeState::new(1);
    let requests = vec![
        Request {
            caller: transfer,
            op: Operation::Stake {
                public_key: key(1),
                value: 2 * MINIMUM_STAKE,
                eligible_since: 0,
                counter: 0,
                authentic: true,
            },
        },
        Request { caller: outside(), op: Operation::Reward { public_key: key(1), value: 700 } },
        Request { caller: outside(), op: Operation::Reward { public_key: key(2), value: 50 } },
        Request { caller: outside(), op: Operation::Slash { public_key: key(1), value: 900 } },
        Request { caller: outside(), op: Operation::HardSlash { public_key: key(2), value: 20 } },
        Request {
            caller: transfer,
            op: Operation::Withdraw { public_key: key(2), counter: 0, authentic: true },
        },
        Request {
            caller: transfer,
            op: Operation::Unstake { public_key: key(1), counter: 1, authentic: true },
        },
    ];
    let receipts = state.call_all(&requests).expect("every request is accepted");
    assert_eq!(receipts.len(), 7);
    let paid_in: u128 = receipts.iter().map(|r| r.paid_in as u128).sum();
    let paid_out: u128 = receipts.iter().map(|r| r.paid_out as u128).sum();
    assert_eq!(paid_in, 2 * MINIMUM_STAKE as u128 + 750);
    assert_eq!(paid_out, 30 + 2 * MINIMUM_STAKE as u128 - 200);
    assert_eq!(value_held(&state) + paid_out, paid_in);
    assert_eq!(state.slashed_amount(), 920);
    assert_eq!(state.get_stake(&key(1)), Some(StakeData { amount: None, reward: 0, counter: 2 }));
    assert_eq!(state.get_stake(&key(2)), Some(StakeData { amount: None, reward: 0, counter: 1 }));
}

#[test]
fn call_all_stops_at_the_first_refusal() {
    let mut state = StakeState::new(1);
    let requests = vec![
        Request { caller: outside(), op: Operation::Reward { public_key: key(1), value: 7 } },
        Request {
            caller: outside(),
            op: Operation::Withdraw { public_key: key(1), counter: 0, authentic: true },
        },
        Request { caller: outside(), op: Operation::Reward { public_key: key(1), value: 7 } },
    ];
    assert_eq!(state.call_all(&requests), Err((1, Error::Unauthorized)));
    assert_eq!(state.get_stake(&key(1)).map(|r| r.reward), Some(7));
}

#[test]
fn call_answers_like_the_named_request() {
    let mut by_call = StakeState::new(1);
    let mut by_name = StakeState::new(1);
    let op = Operation::Reward { public_key: key(4), value: 12 };
    let expected = Receipt {
        event: StakingEvent { topic: Topic::Reward, public_key: key(4), value: 12 },
        paid_in: 12,
        paid_out: 0,
    };
    assert_eq!(by_call.call(&outside(), &op), Ok(expected));
    assert_eq!(by_name.reward(&outside(), key(4), 12), Ok(expected));
    assert_eq!(by_call.stakes(), by_name.stakes());
}

#[test]
fn stakes_come_in_key_order() {
    let mut state = StakeState::new(4);
    for n in [9u8, 2, 7, 1, 8] {
        state.reward(&outside(), key(n), n as u64).expect("accepted");
    }
    state.reward(&outside(), key(7), 100).expect("accepted");
    let all: Vec<(u8, u64)> = state.stakes().iter().map(|(k, r)| (k.to_bytes()[0], r.reward)).collect();
    assert_eq!(all, vec![(1, 1), (2, 2), (7, 107), (8, 8), (9, 9)]);
    assert_eq!(state.len(), 5);
    assert_eq!(state.get_version(), 4);
    assert_eq!(state.get_stake(&key(3)), None);
}

#[test]
fn insert_stake_replaces_the_record() {
    let mut state = StakeState::new(1);
    state.reward(&outside(), key(1), 5).expect("accepted");
    let record = StakeData { amount: Some((77, 2)), reward: 3, counter: 9 };
    state.insert_stake(&outside(), key(1), record).expect("accepted");
    assert_eq!(state.get_stake(&key(1)), Some(record));
    assert_eq!(state.len(), 1);
    assert_eq!(StakeData::vacant(), StakeData { amount: None, reward: 0, counter: 0 });
}

#[test]
fn signed_messages_carry_the_counter_first() {
    assert_eq!(
        stake_signature_message(0x0102030405060708, 0x1112131415161718),
        vec![8, 7, 6, 5, 4, 3, 2, 1, 0x18, 0x17, 0x16, 0x15, 0x14, 0x13, 0x12, 0x11]
    );
    assert_eq!(
        withdraw_signature_message(1, &[0xaa, 0xbb], &[0xcc]),
        vec![1, 0, 0, 0, 0, 0, 0, 0, 0xaa, 0xbb, 0xcc]
    );
    assert_eq!(unstake_signature_message(u64::MAX, &[5]), vec![255, 255, 255, 255, 255, 255, 255, 255, 5]);
    assert_eq!(unstake_signature_message(0, &[]), vec![0u8; 8]);
}

#[test]
fn event_hash_binds_the_events_in_their_order() {
    let empty = [
        0xa7, 0xff, 0xc6, 0xf8, 0xbf, 0x1e, 0xd7, 0x66, 0x51, 0xc1, 0x47, 0x56, 0xa0, 0x61, 0xd6,
        0x62, 0xf5, 0x80, 0xff, 0x4d, 0xe4, 0x3b, 0x49, 0xfa, 0x82, 0xd8, 0x0a, 0x4b, 0x80, 0xf8,
        0x43, 0x4a,
    ];
    assert_eq!(hash_events(&vec![]), empty);
    let reward = StakingEvent { topic: Topic::Reward, public_key: key(5), value: 10 };
    let slash = StakingEvent { topic: Topic::Slash, public_key: key(5), value: 10 };
    let one = [
        0x8c, 0x75, 0x6b, 0xe6, 0xc5, 0x64, 0x3e, 0xe7, 0x89, 0x76, 0x90, 0x01, 0x19, 0xfc, 0x1f,
        0xbf, 0x01, 0x6f, 0x00, 0x61, 0x83, 0xe2, 0x39, 0xa9, 0x35, 0xb9, 0x0c, 0x3c, 0xbe, 0xe9,
        0x7d, 0xfc,
    ];
    assert_eq!(hash_events(&vec![reward.to_event()]), one);
    let forth = hash_events(&vec![reward.to_event(), slash.to_event()]);
    let back = hash_events(&vec![slash.to_event(), reward.to_event()]);
    assert_ne!(forth, back);
    assert_ne!(forth, one);
}

#[test]
fn topics_have_their_names() {
    let names: Vec<Vec<u8>> = [
        Topic::Stake,
        Topic::Unstake,
        Topic::Withdraw,
        Topic::Reward,
        Topic::Slash,
        Topic::HardSlash,
    ]
    .iter()
    .map(|t| t.name())
    .collect();
    let expected: Vec<Vec<u8>> = ["stake", "unstake", "withdraw", "reward", "slash", "hard_slash"]
        .iter()
        .map(|s| s.as_bytes().to_vec())
        .collect();
    assert_eq!(names, expected);
}
