use sha3::{Digest, Sha3_256};
use stake_core::keys::{KeyOrder, PublicKey};
use stake_core::member::Member;
use stake_core::ordered_map::OrderedMap;
use stake_core::provisioners::{every_draw_full, Provisioners, DUSK};
use stake_core::sortition::{create_sortition_hash, generate_sortition_score, Config};
use stake_core::stake::Stake;

fn key(n: u8) -> PublicKey {
    let mut bytes = [0u8; 96];
    bytes[0] = n;
    PublicKey::from_bytes(bytes)
}

fn provisioners(values: &[(u8, u64)]) -> Provisioners {
    let mut p = Provisioners::new();
    for (n, value) in values {
        p.add_member_with_value(key(*n), *value);
    }
    p
}

fn names(committee: &[PublicKey]) -> Vec<u8> {
    committee.iter().map(|k| k.to_bytes()[0]).collect()
}

#[test]
fn stake_new_is_fully_in_play() {
    let stake = Stake::new(7, 3, 11);
    assert_eq!(stake.value(), 7);
    assert_eq!(stake.intermediate_value, 7);
    assert_eq!(stake.reward, 3);
    assert_eq!(stake.counter, 0);
    assert_eq!(stake.eligible_since, 11);
    assert!(!stake.is_eligible(10));
    assert!(stake.is_eligible(11));
    assert!(stake.is_eligible(12));
}

#[test]
fn stake_from_value_is_eligible_from_the_start() {
    let stake = Stake::from_value(42);
    assert_eq!(stake.value(), 42);
    assert_eq!(stake.intermediate_value, 42);
    assert_eq!(stake.reward, 0);
    assert_eq!(stake.counter, 0);
    assert!(stake.is_eligible(0));
    let fresh = Stake::default();
    assert_eq!(fresh.value(), 0);
    assert_eq!(fresh.eligible_since, 0);
}

#[test]
fn stake_subtract_takes_no_more_than_there_is() {
    let mut stake = Stake::new(10, 0, 0);
    assert_eq!(stake.subtract(4), 4);
    assert_eq!(stake.value(), 6);
    assert_eq!(stake.intermediate_value, 6);
    assert_eq!(stake.subtract(6), 6);
    assert_eq!(stake.value(), 0);
    let mut stake = Stake::new(10, 0, 0);
    assert_eq!(stake.subtract(25), 10);
    assert_eq!(stake.value(), 0);
    assert_eq!(stake.subtract(1), 0);
}

#[test]
fn stake_restore_puts_the_amount_back_in_play() {
    let mut stake = Stake::new(10, 0, 0);
    stake.intermediate_value = 3;
    stake.restore_intermediate_value();
    assert_eq!(stake.intermediate_value, 10);
    assert_eq!(stake.value(), 10);
}

#[test]
fn keys_are_ordered_byte_by_byte() {
    let mut low = [0u8; 96];
    let mut high = [0u8; 96];
    low[95] = 0xff;
    high[0] = 1;
    let low = PublicKey::from_bytes(low);
    let high = PublicKey::from_bytes(high);
    assert_eq!(low.order(&high), KeyOrder::Before);
    assert_eq!(high.order(&low), KeyOrder::After);
    assert_eq!(low.order(&low), KeyOrder::Same);
    assert!(low.precedes(&high));
    assert!(!high.precedes(&low));
    assert!(!low.precedes(&low));
    assert!(low.same(&low));
    assert!(!low.same(&high));
    assert_eq!(low.to_bytes()[95], 0xff);
}

#[test]
fn key_from_slice_wants_96_bytes() {
    assert!(PublicKey::from_slice(&[1u8; 95]).is_none());
    assert!(PublicKey::from_slice(&[1u8; 97]).is_none());
    let key = PublicKey::from_slice(&[9u8; 96]).expect("96 bytes are a key");
    assert_eq!(key.to_bytes(), [9u8; 96]);
}

#[test]
fn member_collects_stakes_in_order() {
    let mut member = Member::new(key(1));
    assert!(member.first_stake().is_none());
    assert!(!member.is_eligible(100));
    assert_eq!(member.get_total_eligible_stake(100), 0);
    member.add_stake(Stake::new(5, 0, 10));
    member.add_stake(Stake::new(7, 0, 0));
    assert_eq!(member.first_stake().map(|s| s.value()), Some(5));
    assert_eq!(member.public_key().to_bytes()[0], 1);
    assert!(member.is_eligible(0));
    assert_eq!(member.get_total_eligible_stake(0), 7);
    assert_eq!(member.get_total_eligible_stake(9), 7);
    assert_eq!(member.get_total_eligible_stake(10), 12);
}

#[test]
fn member_weight_does_not_wrap_at_64_bits() {
    let mut member = Member::new(key(1));
    member.add_stake(Stake::new(u64::MAX, 0, 0));
    member.add_stake(Stake::new(u64::MAX, 0, 0));
    assert_eq!(member.get_total_eligible_stake(0), 2 * (u64::MAX as u128));
}

#[test]
fn member_subtract_drains_the_stakes_in_order() {
    let mut member = Member::new(key(1));
    member.add_stake(Stake::new(0, 0, 0));
    member.add_stake(Stake::new(5, 0, 50));
    member.add_stake(Stake::new(9, 0, 0));
    // the second stake is the first with something in play, eligible or not
    assert_eq!(member.subtract_from_stake(3), 3);
    assert_eq!(member.get_total_eligible_stake(0), 9);
    assert_eq!(member.get_total_eligible_stake(50), 11);
    // what the second stake cannot give any more, the third gives
    assert_eq!(member.subtract_from_stake(3), 3);
    assert_eq!(member.get_total_eligible_stake(0), 8);
    assert_eq!(member.get_total_eligible_stake(50), 8);
    assert_eq!(member.subtract_from_stake(20), 8);
    assert_eq!(member.get_total_eligible_stake(50), 0);
    assert_eq!(member.subtract_from_stake(20), 0);
    member.restore_intermediate_value();
    assert_eq!(member.get_total_eligible_stake(50), 14);
    assert_eq!(member.first_stake().map(|s| s.value()), Some(0));
}

#[test]
fn member_is_lowered_by_the_unit_across_its_stakes() {
    let mut member = Member::new(key(1));
    member.add_stake(Stake::new(DUSK / 2, 3, 0));
    member.add_stake(Stake::new(2 * DUSK, 4, 0));
    assert_eq!(member.subtract_from_stake(DUSK), DUSK);
    assert_eq!(member.get_total_eligible_stake(0), (DUSK + DUSK / 2) as u128);
    // the amounts, rewards and rounds of the stakes are as they were
    let first = member.first_stake().expect("has stakes");
    assert_eq!((first.value(), first.intermediate_value, first.reward), (DUSK / 2, 0, 3));
    assert_eq!(member.subtract_from_stake(0), 0);
    assert_eq!(member.subtract_from_stake(u64::MAX), DUSK + DUSK / 2);
    assert_eq!(member.get_total_eligible_stake(0), 0);
}

#[test]
fn draw_lowers_a_member_of_two_stakes_by_one_coin() {
    let mut p = Provisioners::new();
    p.add_member_with_stake(key(1), Stake::new(DUSK / 2, 0, 0));
    p.add_member_with_stake(key(1), Stake::new(2 * DUSK, 0, 0));
    let drawn = p.extract_and_subtract_member(0, 0).expect("there are members");
    assert_eq!((drawn.0.to_bytes()[0], drawn.1), (1, DUSK));
    assert_eq!(p.eligible_weight_of(&key(1), 0), (DUSK + DUSK / 2) as u128);
    assert_eq!(p.subtract_from(&key(1), DUSK), DUSK);
    assert_eq!(p.subtract_from(&key(1), DUSK), DUSK / 2);
    assert_eq!(p.subtract_from(&key(1), DUSK), 0);
}

#[test]
fn key_with_two_half_coins_gets_one_seat() {
    let mut p = Provisioners::new();
    p.add_member_with_stake(key(1), Stake::new(DUSK / 2, 0, 0));
    p.add_member_with_stake(key(1), Stake::new(DUSK / 2, 0, 0));
    let cfg = Config::new([0u8; 32], 0, 0, 2);
    let (committee, takes) = p.draw_committee(&cfg);
    assert_eq!(names(&committee), vec![1]);
    assert_eq!(takes, vec![DUSK]);
    assert!(every_draw_full(&takes, DUSK as u128));
    assert_eq!(p.create_committee(&cfg), committee);
}

#[test]
fn one_and_a_half_coins_give_two_seats() {
    let p = provisioners(&[(1, DUSK + DUSK / 2)]);
    for size in [0usize, 1, 2, 3, 9] {
        let (committee, takes) = p.draw_committee(&Config::new([5u8; 32], 3, 1, size));
        assert_eq!(committee.len(), size.min(2), "size {size}");
        assert_eq!(takes, [DUSK, DUSK / 2][..size.min(2)].to_vec());
        assert!(every_draw_full(&takes, (DUSK + DUSK / 2) as u128));
    }
}

#[test]
fn two_keys_of_half_a_coin_take_two_seats_from_a_pool_of_one_coin() {
    let p = provisioners(&[(1, DUSK / 2), (2, DUSK / 2)]);
    let (committee, takes) = p.draw_committee(&Config::new([0u8; 32], 0, 0, 5));
    // the first draw takes half a coin and leaves the other half in the pool
    assert_eq!(committee.len(), 2);
    assert_eq!(takes, vec![DUSK / 2, DUSK / 2]);
    assert!(!every_draw_full(&takes, DUSK as u128));
}

#[test]
fn full_draws_are_told_from_the_takes() {
    assert!(every_draw_full(&vec![], 0));
    assert!(every_draw_full(&vec![], 7 * DUSK as u128));
    assert!(every_draw_full(&vec![DUSK, DUSK, DUSK], 3 * DUSK as u128));
    assert!(every_draw_full(&vec![DUSK, DUSK, 5], 2 * DUSK as u128 + 5));
    assert!(every_draw_full(&vec![DUSK, DUSK], 2 * DUSK as u128 + 5));
    assert!(!every_draw_full(&vec![DUSK, 5, DUSK], 3 * DUSK as u128));
    assert!(!every_draw_full(&vec![0, DUSK], DUSK as u128));
    assert!(every_draw_full(&vec![7], 7));
    assert!(every_draw_full(&vec![7], 3));
    assert!(!every_draw_full(&vec![7], 8));
}

#[test]
fn provisioners_keep_members_in_key_order() {
    let mut p = Provisioners::new();
    p.add_member_with_value(key(3), 30);
    p.add_member_with_value(key(1), 10);
    p.add_member_with_value(key(2), 20);
    p.add_member_with_stake(key(1), Stake::new(5, 0, 9));
    assert_eq!(p.get_provisioners_info(0), (3, 3));
    assert_eq!(p.calc_total_eligible_weight(0), Some(60));
    assert_eq!(p.calc_total_eligible_weight(9), Some(65));
    let first = p.get_member(&key(1)).expect("member 1 was added");
    assert_eq!(first.first_stake().map(|s| s.value()), Some(10));
    assert_eq!(first.get_total_eligible_stake(9), 15);
    assert!(p.get_member(&key(4)).is_none());
    // a score of 10 stops at the member with the lowest key, and the draw
    // takes all that the member has in play: less than a coin
    let drawn = p.extract_and_subtract_member(10, 0).expect("there are members");
    assert_eq!(drawn.0.to_bytes()[0], 1);
    assert_eq!(drawn.1, 15);
    assert_eq!(p.eligible_weight_of(&key(1), 9), 0);
}

#[test]
fn provisioners_info_counts_the_eligible() {
    let mut p = Provisioners::new();
    assert_eq!(p.get_provisioners_info(0), (0, 0));
    p.add_member_with_stake(key(1), Stake::new(10, 0, 5));
    p.add_member_with_stake(key(2), Stake::new(10, 0, 0));
    p.add_member_with_stake(key(3), Stake::new(10, 0, 6));
    assert_eq!(p.get_provisioners_info(0), (3, 1));
    assert_eq!(p.get_provisioners_info(5), (3, 2));
    assert_eq!(p.get_provisioners_info(6), (3, 3));
}

#[test]
fn total_weight_that_exceeds_128_bits_is_reported() {
    let mut p = Provisioners::new();
    assert_eq!(p.calc_total_eligible_weight(0), Some(0));
    p.add_member_with_value(key(1), u64::MAX);
    p.add_member_with_value(key(2), u64::MAX);
    assert_eq!(p.calc_total_eligible_weight(0), Some(2 * (u64::MAX as u128)));
}

#[test]
fn walk_stops_at_the_first_member_that_reaches_the_score() {
    let cases: [(u128, u8, u64); 7] = [
        (0, 1, 1000),
        (1000, 1, 1000),
        (1001, 2, 2000),
        (3000, 2, 2000),
        (3001, 3, 3000),
        (5999, 3, 3000),
        (6000, 3, 3000),
    ];
    for (score, member, taken) in cases {
        let mut p = provisioners(&[(1, 1000), (2, 2000), (3, 3000)]);
        let drawn = p.extract_and_subtract_member(score, 1).expect("there are members");
        assert_eq!(drawn.0.to_bytes()[0], member, "score {score}");
        assert_eq!(drawn.1, taken, "score {score}");
        assert_eq!(p.calc_total_eligible_weight(1), Some(6000 - taken as u128));
    }
}

#[test]
fn a_seat_costs_one_coin() {
    let mut p = provisioners(&[(1, 5 * DUSK), (2, DUSK / 2)]);
    let drawn = p.extract_and_subtract_member(1, 0).expect("there are members");
    assert_eq!((drawn.0.to_bytes()[0], drawn.1), (1, DUSK));
    assert_eq!(p.calc_total_eligible_weight(0), Some((4 * DUSK + DUSK / 2) as u128));
    let drawn = p.extract_and_subtract_member((4 * DUSK + 1) as u128, 0).expect("there are members");
    assert_eq!((drawn.0.to_bytes()[0], drawn.1), (2, DUSK / 2));
    assert_eq!(p.calc_total_eligible_weight(0), Some((4 * DUSK) as u128));
}

#[test]
fn extraction_from_no_members_gives_nothing() {
    let mut p = Provisioners::new();
    assert!(p.extract_and_subtract_member(0, 0).is_none());
}

#[test]
fn a_zero_score_stops_at_the_first_member_whatever_it_holds() {
    let mut p = Provisioners::new();
    p.add_member_with_stake(key(1), Stake::new(10, 0, 5));
    p.add_member_with_stake(key(2), Stake::new(10, 0, 0));
    // at round 1 the first member is not eligible yet
    let drawn = p.extract_and_subtract_member(0, 1).expect("there are members");
    assert_eq!(drawn.0.to_bytes()[0], 1);
    // any other score passes it by
    let drawn = p.extract_and_subtract_member(1, 1).expect("there are members");
    assert_eq!(drawn.0.to_bytes()[0], 2);
}

#[test]
fn sortition_hash_is_sha3_of_seed_round_step_counter() {
    let cfg = Config::new([7u8; 32], 0x0102030405060708, 0x1122, 5);
    let mut preimage = vec![7u8; 32];
    preimage.extend_from_slice(&[8, 7, 6, 5, 4, 3, 2, 1]);
    preimage.extend_from_slice(&[0x22, 0x11]);
    preimage.extend_from_slice(&[0xdd, 0xcc, 0xbb, 0xaa]);
    let expected: [u8; 32] = Sha3_256::digest(&preimage).into();
    assert_eq!(create_sortition_hash(&cfg, 0xaabbccdd), expected);
    assert_ne!(create_sortition_hash(&cfg, 0xaabbccde), expected);
}

#[test]
fn sortition_hash_of_the_first_draw() {
    let cfg = Config::new([0u8; 32], 1, 0, 5);
    let hash = create_sortition_hash(&cfg, 0);
    let expected = [
        0xfd, 0x2d, 0x12, 0xd3, 0xe0, 0x98, 0x6f, 0x23, 0xc4, 0x53, 0x59, 0x3e, 0x6d, 0x4e, 0xb3,
        0x67, 0x16, 0x90, 0x5c, 0x03, 0xd3, 0xec, 0x0f, 0xa2, 0x93, 0xf8, 0x28, 0xf4, 0xd6, 0x15,
        0xc7, 0x16,
    ];
    assert_eq!(hash, expected);
    assert_eq!(generate_sortition_score(&hash, 6000), 5558);
}

#[test]
fn score_is_the_big_endian_hash_modulo_the_total() {
    let mut hash = [0u8; 32];
    hash[31] = 10;
    assert_eq!(generate_sortition_score(&hash, 7), 3);
    hash[30] = 1;
    assert_eq!(generate_sortition_score(&hash, 1000), 266);
    let mut hash = [0u8; 32];
    hash[0] = 1;
    // 2^248 mod 2^64 is zero: the first byte is the most significant
    assert_eq!(generate_sortition_score(&hash, 1 << 64), 0);
    let all = [0xffu8; 32];
    assert_eq!(generate_sortition_score(&all, 1_000_000_007), 792845265);
    assert_eq!(generate_sortition_score(&all, u128::MAX), 0);
    assert_eq!(generate_sortition_score(&all, (1u128 << 64) + 13), 28560);
    assert_eq!(generate_sortition_score(&all, 1), 0);
}

#[test]
fn committee_of_three_small_stakes() {
    let p = provisioners(&[(1, 1000), (2, 2000), (3, 3000)]);
    let cfg = Config::new([0u8; 32], 1, 0, 5);
    let committee = p.create_committee(&cfg);
    // each draw takes the whole stake of the member it stops at
    assert_eq!(names(&committee), vec![3, 2, 1]);
}

#[test]
fn committee_of_whole_coins() {
    let p = provisioners(&[(1, 5 * DUSK), (2, 3 * DUSK), (3, 2 * DUSK)]);
    let committee = p.create_committee(&Config::new([0u8; 32], 1, 0, 5));
    assert_eq!(names(&committee), vec![1, 1, 2, 1, 3]);
    let committee = p.create_committee(&Config::new([7u8; 32], 7, 3, 20));
    assert_eq!(names(&committee), vec![2, 2, 1, 1, 1, 1, 2, 1, 3, 3]);
}

#[test]
fn sortition_is_deterministic() {
    let p = provisioners(&[(1, 1000), (2, 2000), (3, 3000)]);
    let cfg = Config::new([0u8; 32], 1, 0, 5);
    let first = p.create_committee(&cfg);
    let again = provisioners(&[(3, 3000), (1, 1000), (2, 2000)]);
    let second = again.create_committee(&cfg);
    assert_eq!(first, second);
    assert!(first.len() <= 5);
    // the provisioners are left as they were: a third run gives the same
    assert_eq!(p.create_committee(&cfg), first);
    assert_eq!(p.calc_total_eligible_weight(1), Some(6000));
}

#[test]
fn sortition_fills_five_seats_from_coins() {
    let p = provisioners(&[(1, 1000 * DUSK), (2, 2000 * DUSK), (3, 3000 * DUSK)]);
    let cfg = Config::new([0u8; 32], 1, 0, 5);
    let first = p.create_committee(&cfg);
    assert_eq!(first.len(), 5);
    assert_eq!(p.create_committee(&cfg), first);
    assert_eq!(p.try_create_committee(&cfg), Some(first));
}

#[test]
fn sortition_follows_the_stake() {
    let p = provisioners(&[(1, 100 * DUSK), (2, DUSK)]);
    let mut big = 0u32;
    let mut small = 0u32;
    for step in 0..10_000u16 {
        let committee = p.create_committee(&Config::new([0u8; 32], 1, step, 1));
        assert_eq!(committee.len(), 1);
        if committee[0].to_bytes()[0] == 1 {
            big += 1;
        } else {
            small += 1;
        }
    }
    assert_eq!((big, small), (9908, 92));
    assert!(big > 50 * small && big < 200 * small);
}

#[test]
fn sortition_passes_by_stakes_that_do_not_count_yet() {
    let mut p = Provisioners::new();
    p.add_member_with_stake(key(1), Stake::new(5 * DUSK, 0, 0));
    p.add_member_with_stake(key(2), Stake::new(500 * DUSK, 0, 10));
    p.add_member_with_stake(key(3), Stake::new(5 * DUSK, 0, 0));
    for step in 0..200u16 {
        let committee = p.create_committee(&Config::new([1u8; 32], 9, step, 10));
        assert!(names(&committee).iter().all(|n| *n != 2));
        assert_eq!(committee.len(), 10);
    }
    let committee = p.create_committee(&Config::new([1u8; 32], 10, 0, 10));
    assert!(names(&committee).iter().any(|n| *n == 2));
}

#[test]
fn committee_has_a_seat_for_each_coin_or_each_seat() {
    let p = provisioners(&[(1, 2 * DUSK), (2, DUSK), (3, 4 * DUSK)]);
    for size in [0usize, 1, 6, 7, 8, 50] {
        let committee = p.create_committee(&Config::new([3u8; 32], 2, 1, size));
        assert_eq!(committee.len(), size.min(7), "size {size}");
    }
}

#[test]
fn committee_of_nobody_is_empty() {
    let p = Provisioners::new();
    assert!(p.create_committee(&Config::new([0u8; 32], 1, 0, 5)).is_empty());
    let p = provisioners(&[(1, 0)]);
    assert!(p.create_committee(&Config::new([0u8; 32], 1, 0, 5)).is_empty());
}

#[test]
fn committee_is_refused_where_the_counter_cannot_count_the_seats() {
    let p = provisioners(&[(1, DUSK)]);
    let cfg = Config::new([0u8; 32], 1, 0, u32::MAX as usize + 1);
    assert_eq!(p.try_create_committee(&cfg), None);
    let cfg = Config::new([0u8; 32], 1, 0, 3);
    assert_eq!(p.try_create_committee(&cfg).map(|c| c.len()), Some(1));
}

#[test]
fn snapshot_puts_every_stake_back_in_play() {
    let mut p = provisioners(&[(1, 3 * DUSK), (2, DUSK)]);
    assert_eq!(p.subtract_from(&key(1), DUSK), DUSK);
    assert_eq!(p.subtract_from(&key(2), 5 * DUSK), DUSK);
    assert_eq!(p.subtract_from(&key(2), DUSK), 0);
    assert_eq!(p.subtract_from(&key(3), DUSK), 0);
    assert_eq!(p.eligible_weight_of(&key(1), 0), (2 * DUSK) as u128);
    assert_eq!(p.eligible_weight_of(&key(2), 0), 0);
    assert_eq!(p.eligible_weight_of(&key(3), 0), 0);
    let fresh = p.snapshot();
    assert_eq!(fresh.eligible_weight_of(&key(1), 0), (3 * DUSK) as u128);
    assert_eq!(fresh.eligible_weight_of(&key(2), 0), DUSK as u128);
    assert_eq!(fresh.get_provisioners_info(0), (2, 2));
    // the provisioners themselves are as they were
    assert_eq!(p.calc_total_eligible_weight(0), Some((2 * DUSK) as u128));
    assert!(Provisioners::default().create_committee(&Config::new([0u8; 32], 0, 0, 1)).is_empty());
}

#[test]
fn ordered_map_keeps_its_keys_sorted() {
    let mut map: OrderedMap<u32> = OrderedMap::new();
    assert_eq!(map.len(), 0);
    assert_eq!(map.search(&key(5)), Err(0));
    assert_eq!(map.insert(key(5), 50), 0);
    assert_eq!(map.insert(key(2), 20), 0);
    assert_eq!(map.insert(key(9), 90), 2);
    assert_eq!(map.insert(key(7), 70), 2);
    assert_eq!(map.len(), 4);
    let keys: Vec<u8> = (0..map.len()).map(|i| map.key_at(i).to_bytes()[0]).collect();
    assert_eq!(keys, vec![2, 5, 7, 9]);
    let values: Vec<u32> = (0..map.len()).map(|i| *map.value_at(i)).collect();
    assert_eq!(values, vec![20, 50, 70, 90]);
    assert_eq!(map.search(&key(7)), Ok(2));
    assert_eq!(map.search(&key(1)), Err(0));
    assert_eq!(map.search(&key(6)), Err(2));
    assert_eq!(map.search(&key(10)), Err(4));
    assert_eq!(map.get(&key(9)), Some(&90));
    assert_eq!(map.get(&key(8)), None);
    // storing under a key that is there replaces the value
    assert_eq!(map.insert(key(5), 55), 1);
    assert_eq!(map.len(), 4);
    assert_eq!(map.get(&key(5)), Some(&55));
    *map.value_at_mut(3) += 1;
    assert_eq!(map.get(&key(9)), Some(&91));
    map.push_last(key(11), 110);
    assert_eq!(map.search(&key(11)), Ok(4));
}

#[test]
fn member_copy_holds_the_same_stakes() {
    let mut member = Member::new(key(4));
    member.add_stake(Stake::new(5, 1, 10));
    member.add_stake(Stake::new(7, 2, 0));
    let mut copy = member.clone();
    assert_eq!(copy.public_key(), member.public_key());
    assert_eq!(copy.get_total_eligible_stake(10), 12);
    assert_eq!(copy.subtract_from_stake(5), 5);
    // the member itself is as it was
    assert_eq!(member.get_total_eligible_stake(10), 12);
    assert_eq!(copy.get_total_eligible_stake(10), 7);
}

#[test]
fn seats_are_capped_in_proportion_to_stake() {
    let mut p = provisioners(&[(1, 2 * DUSK), (2, DUSK), (3, 100 * DUSK)]);
    p.add_member_with_stake(key(4), Stake::new(DUSK / 2, 0, 0));
    p.add_member_with_stake(key(4), Stake::new(DUSK / 2, 0, 0));
    for step in 0..50u16 {
        let (committee, takes) = p.draw_committee(&Config::new([9u8; 32], 4, step, 64));
        assert!(takes.iter().all(|t| *t > 0));
        let seats = |n: u8| names(&committee).iter().filter(|k| **k == n).count();
        assert!(seats(1) <= 2);
        assert!(seats(2) <= 1);
        assert!(seats(3) <= 100);
        assert!(seats(4) <= 1);
        assert_eq!(committee.len(), 64);
    }
    let (committee, _) = p.draw_committee(&Config::new([9u8; 32], 4, 0, 200));
    let seats = |n: u8| names(&committee).iter().filter(|k| **k == n).count();
    assert_eq!((seats(1), seats(2), seats(3), seats(4)), (2, 1, 100, 1));
}
