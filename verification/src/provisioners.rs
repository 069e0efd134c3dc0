//! The provisioners of a round and the committee drawn from them.

use crate::keys::{lex_lt, PublicKey};
use crate::member::{Member, MemberView};
use crate::ordered_map::{has_key, lemma_rank_same_keys, rank, sorted_by_key, OrderedMap};
use crate::sortition::{create_sortition_hash, generate_sortition_score, sortition_score, Config};
use crate::stake::Stake;
use vstd::prelude::*;

verus! {

/// One coin in base units: what a seat costs the member that wins it.
pub const DUSK: u64 = 1_000_000_000;

/// The members paired with their keys.
pub open spec fn keyed(members: Seq<MemberView>) -> Seq<(Seq<u8>, MemberView)> {
    members.map_values(|m: MemberView| (m.key, m))
}

/// The keys of the members strictly increase in canonical order.
pub open spec fn keys_sorted(members: Seq<MemberView>) -> bool {
    sorted_by_key(keyed(members))
}

/// The sum of the weights of `members` at `round`.
pub open spec fn total_weight(members: Seq<MemberView>, round: u64) -> nat
    decreases members.len(),
{
    if members.len() == 0 {
        0
    } else {
        total_weight(members.drop_last(), round) + members.last().weight(round)
    }
}

/// The number of members with a stake that counts at `round`.
pub open spec fn count_eligible(members: Seq<MemberView>, round: u64) -> nat
    decreases members.len(),
{
    if members.len() == 0 {
        0
    } else {
        count_eligible(members.drop_last(), round) + if members.last().eligible(round) {
            1nat
        } else {
            0nat
        }
    }
}

/// The members with `stake` added under `key`: appended to the stakes of
/// the member with that key, or as the only stake of a new member at the
/// place that keeps the keys sorted.
pub open spec fn with_stake(members: Seq<MemberView>, key: Seq<u8>, stake: Stake) -> Seq<
    MemberView,
> {
    let at = rank(keyed(members), key);
    if has_key(keyed(members), key) {
        members.update(at, MemberView { key, stakes: members[at].stakes.push(stake) })
    } else {
        members.insert(at, MemberView { key, stakes: seq![stake] })
    }
}

/// The walk of one draw: from member `from` on, the index of the first
/// member whose weight reaches what is left of the score, each member
/// passed over taking its weight off. The number of members where none
/// does.
pub open spec fn walk(members: Seq<MemberView>, round: u64, remaining: nat, from: int) -> int
    decreases members.len() - from,
{
    if from < 0 || from >= members.len() {
        members.len() as int
    } else if members[from].weight(round) >= remaining {
        from
    } else {
        walk(members, round, (remaining - members[from].weight(round)) as nat, from + 1)
    }
}

/// The members after member `i` has paid for a seat.
pub open spec fn after_seat(members: Seq<MemberView>, i: int) -> Seq<MemberView> {
    members.update(i, members[i].after_subtract(DUSK))
}

/// What is left of the pool after `taken` has gone.
pub open spec fn pool_after(total: nat, taken: nat) -> nat {
    if total > taken {
        (total - taken) as nat
    } else {
        0
    }
}

/// The members with every stake fully back in play.
pub open spec fn restored(members: Seq<MemberView>) -> Seq<MemberView> {
    members.map_values(|m: MemberView| m.restored())
}

/// The keys that fill the `seats` left, drawn from `members` with a pool
/// of `total`, the next draw being number `counter`.
pub open spec fn committee_from(
    members: Seq<MemberView>,
    cfg: Config,
    total: nat,
    counter: nat,
    seats: nat,
) -> Seq<Seq<u8>>
    decreases seats,
{
    if total == 0 || seats == 0 {
        Seq::empty()
    } else {
        let i = walk(members, cfg.round, sortition_score(cfg, counter, total), 0);
        if 0 <= i < members.len() {
            seq![members[i].key] + committee_from(
                after_seat(members, i),
                cfg,
                pool_after(total, members[i].taken(DUSK) as nat),
                counter + 1,
                (seats - 1) as nat,
            )
        } else {
            Seq::empty()
        }
    }
}

/// The committee that `cfg` draws from `members`: every stake is put back
/// in play, the pool is the total weight at the round of `cfg`, and draws
/// are made until the seats are filled or the pool is empty.
pub open spec fn committee(members: Seq<MemberView>, cfg: Config) -> Seq<Seq<u8>> {
    committee_from(
        restored(members),
        cfg,
        total_weight(restored(members), cfg.round),
        0,
        cfg.committee_size as nat,
    )
}

/// What each of the draws takes from the member it stops at, for the
/// draws that `committee_from` makes.
pub open spec fn takes_from(
    members: Seq<MemberView>,
    cfg: Config,
    total: nat,
    counter: nat,
    seats: nat,
) -> Seq<u64>
    decreases seats,
{
    if total == 0 || seats == 0 {
        Seq::empty()
    } else {
        let i = walk(members, cfg.round, sortition_score(cfg, counter, total), 0);
        if 0 <= i < members.len() {
            seq![members[i].taken(DUSK)] + takes_from(
                after_seat(members, i),
                cfg,
                pool_after(total, members[i].taken(DUSK) as nat),
                counter + 1,
                (seats - 1) as nat,
            )
        } else {
            Seq::empty()
        }
    }
}

/// What each draw of the committee of `cfg` takes, in the order of the
/// draws.
pub open spec fn takes(members: Seq<MemberView>, cfg: Config) -> Seq<u64> {
    takes_from(
        restored(members),
        cfg,
        total_weight(restored(members), cfg.round),
        0,
        cfg.committee_size as nat,
    )
}

/// Every one of the draws takes a full coin or what is left of the pool:
/// `takes` are what the draws took one after another from a pool that
/// began with `total`.
pub open spec fn full_draws(takes: Seq<u64>, total: nat) -> bool
    decreases takes.len(),
{
    if takes.len() == 0 {
        true
    } else {
        &&& takes[0] == DUSK || pool_after(total, takes[0] as nat) == 0
        &&& full_draws(takes.drop_first(), pool_after(total, takes[0] as nat))
    }
}

/// The number of coins that cover `total`: `total` in coins, rounded up.
pub open spec fn coins_to_cover(total: nat) -> nat {
    ((total + DUSK - 1) / (DUSK as int)) as nat
}

/// Whether every one of the draws took a full coin or what was left of a
/// pool that began with `total`.
pub fn every_draw_full(takes: &Vec<u64>, total: u128) -> (full: bool)
    ensures
        full == full_draws(takes@, total as nat),
{
    let mut pool = total;
    let mut i: usize = 0;
    assert(takes@.skip(0) =~= takes@);
    while i < takes.len()
        invariant
            i <= takes.len(),
            full_draws(takes@, total as nat) == full_draws(takes@.skip(i as int), pool as nat),
        decreases takes.len() - i,
    {
        let taken = takes[i];
        let left = if pool > taken as u128 {
            pool - taken as u128
        } else {
            0
        };
        proof {
            assert(takes@.skip(i as int).drop_first() =~= takes@.skip(i + 1));
        }
        if taken != DUSK && left != 0 {
            return false;
        }
        pool = left;
        i += 1;
    }
    true
}

/// The encodings of `keys`.
pub open spec fn encodings(keys: Seq<PublicKey>) -> Seq<Seq<u8>> {
    keys.map_values(|k: PublicKey| k@)
}

/// The weight of the members before `i` and that of member `i` make the
/// weight of the members before `i + 1`.
pub proof fn lemma_total_weight_take(members: Seq<MemberView>, round: u64, i: int)
    requires
        0 <= i < members.len(),
    ensures
        total_weight(members.take(i + 1), round) == total_weight(members.take(i), round)
            + members[i].weight(round),
{
    assert(members.take(i + 1).drop_last() =~= members.take(i));
}

/// Replacing one member changes the total weight by the difference of the
/// two weights.
pub proof fn lemma_total_weight_update(
    members: Seq<MemberView>,
    round: u64,
    i: int,
    member: MemberView,
)
    requires
        0 <= i < members.len(),
    ensures
        total_weight(members.update(i, member), round) + members[i].weight(round) == total_weight(
            members,
            round,
        ) + member.weight(round),
    decreases members.len(),
{
    let updated = members.update(i, member);
    if i == members.len() - 1 {
        assert(updated.drop_last() =~= members.drop_last());
    } else {
        assert(updated.drop_last() =~= members.drop_last().update(i, member));
        lemma_total_weight_update(members.drop_last(), round, i, member);
    }
}

/// A seat costs the pool of members no more than what was taken.
pub proof fn lemma_after_seat(members: Seq<MemberView>, round: u64, i: int)
    requires
        0 <= i < members.len(),
    ensures
        total_weight(after_seat(members, i), round) <= total_weight(members, round),
        total_weight(members, round) <= total_weight(after_seat(members, i), round) + members[i].taken(
            DUSK,
        ),
        after_seat(members, i).len() == members.len(),
        forall|j: int|
            0 <= j < members.len() ==> (#[trigger] after_seat(members, i)[j]).key == members[j].key,
        keys_sorted(members) ==> keys_sorted(after_seat(members, i)),
{
    crate::member::lemma_subtract_weight(members[i], DUSK, round);
    lemma_total_weight_update(members, round, i, members[i].after_subtract(DUSK));
    let after = after_seat(members, i);
    assert forall|j: int| 0 <= j < members.len() implies (#[trigger] after[j]).key
        == members[j].key by {}
    assert forall|j: int| 0 <= j < members.len() implies (#[trigger] keyed(after)[j]).0 == (
    #[trigger] keyed(members)[j]).0 by {
        assert(after[j].key == members[j].key);
    }
    lemma_rank_same_keys(keyed(after), keyed(members), Seq::<u8>::empty());
}

/// The weight of the first `i` members is no more than that of all.
pub proof fn lemma_total_weight_grows(members: Seq<MemberView>, round: u64, i: int)
    requires
        0 <= i <= members.len(),
    ensures
        total_weight(members.take(i), round) <= total_weight(members, round),
    decreases members.len() - i,
{
    if i < members.len() {
        lemma_total_weight_take(members, round, i);
        lemma_total_weight_grows(members, round, i + 1);
    } else {
        assert(members.take(i) =~= members);
    }
}

/// The provisioners of a round, walked in canonical key order.
pub struct Provisioners {
    members: OrderedMap<Member>,
}

impl View for Provisioners {
    type V = Seq<MemberView>;

    closed spec fn view(&self) -> Seq<MemberView> {
        self.members@.map_values(|e: (Seq<u8>, Member)| e.1@)
    }
}

impl Default for Provisioners {
    fn default() -> (provisioners: Self)
        ensures
            provisioners.wf(),
            provisioners@ == Seq::<MemberView>::empty(),
    {
        Provisioners::new()
    }
}

impl Provisioners {
    /// Every member stands under its own key, and the keys strictly
    /// increase.
    pub closed spec fn wf(&self) -> bool {
        &&& self.members.wf()
        &&& forall|i: int|
            0 <= i < self.members@.len() ==> (#[trigger] self.members@[i]).0 == self.members@[i].1@.key
    }

    /// The members of well-formed provisioners are sorted by key.
    pub proof fn lemma_sorted(&self)
        requires
            self.wf(),
        ensures
            keys_sorted(self@),
    {
        self.lemma_keyed(Seq::<u8>::empty());
    }

    proof fn lemma_keyed(&self, key: Seq<u8>)
        requires
            self.wf(),
        ensures
            keys_sorted(self@),
            rank(keyed(self@), key) == rank(self.members@, key),
            has_key(keyed(self@), key) == has_key(self.members@, key),
            self@.len() == self.members@.len(),
    {
        assert forall|i: int| 0 <= i < self.members@.len() implies (#[trigger] keyed(self@)[i]).0 == (
        #[trigger] self.members@[i]).0 by {}
        lemma_rank_same_keys(keyed(self@), self.members@, key);
    }

    pub fn new() -> (provisioners: Self)
        ensures
            provisioners.wf(),
            provisioners@ == Seq::<MemberView>::empty(),
    {
        let provisioners = Provisioners { members: OrderedMap::new() };
        provisioners
    }

    /// Adds a provisioner with stake.
    ///
    /// It appends the stake if the given provisioner already exists.
    pub fn add_member_with_stake(&mut self, pubkey_bls: PublicKey, stake: Stake)
        requires
            old(self).wf(),
        ensures
            final(self).wf(),
            final(self)@ == with_stake(old(self)@, pubkey_bls@, stake),
    {
        proof {
            self.lemma_keyed(pubkey_bls@);
        }
        match self.members.search(&pubkey_bls) {
            Ok(i) => {
                let member = self.members.value_at_mut(i);
                member.add_stake(stake);
                proof {
                    assert forall|k: int| 0 <= k < self.members@.len() implies (
                    #[trigger] self.members@[k]).0 == (#[trigger] old(self).members@[k]).0 by {}
                    lemma_rank_same_keys(self.members@, old(self).members@, pubkey_bls@);
                }
            },
            Err(_) => {
                let mut member = Member::new(pubkey_bls);
                member.add_stake(stake);
                self.members.insert(pubkey_bls, member);
            },
        }
    }

    /// Adds a new member with reward=0 and eligible_since=0.
    pub fn add_member_with_value(&mut self, pubkey_bls: PublicKey, value: u64)
        requires
            old(self).wf(),
        ensures
            final(self).wf(),
            final(self)@ == with_stake(old(self)@, pubkey_bls@, Stake::new_spec(value, 0, 0)),
    {
        self.add_member_with_stake(pubkey_bls, Stake::new(value, 0, 0));
    }

    /// The number of provisioners, and the number of those with a stake
    /// that counts at `round`.
    pub fn get_provisioners_info(&self, round: u64) -> (info: (usize, usize))
        ensures
            info.0 == self@.len(),
            info.1 == count_eligible(self@, round),
    {
        let len = self.members.len();
        let mut eligible: usize = 0;
        let mut i: usize = 0;
        while i < len
            invariant
                i <= len,
                len == self@.len(),
                len == self.members@.len(),
                eligible == count_eligible(self@.take(i as int), round),
                eligible <= i,
            decreases len - i,
        {
            proof {
                assert(self@.take(i + 1).drop_last() =~= self@.take(i as int));
            }
            if self.members.value_at(i).is_eligible(round) {
                eligible += 1;
            }
            i += 1;
        }
        assert(self@.take(len as int) =~= self@);
        (len, eligible)
    }

    /// Returns a member of the provisioner list by public key.
    pub fn get_member(&self, key: &PublicKey) -> (member: Option<&Member>)
        requires
            self.wf(),
        ensures
            match member {
                Some(m) => has_key(keyed(self@), key@) && m@ == self@[rank(keyed(self@), key@)],
                None => !has_key(keyed(self@), key@),
            },
    {
        proof {
            self.lemma_keyed(key@);
        }
        match self.members.search(key) {
            Ok(i) => Some(self.members.value_at(i)),
            Err(_) => None,
        }
    }

    /// The weight of the member with `key` in a sortition for `round`;
    /// nothing where there is no such member.
    pub fn eligible_weight_of(&self, key: &PublicKey, round: u64) -> (weight: u128)
        requires
            self.wf(),
        ensures
            weight == if has_key(keyed(self@), key@) {
                self@[rank(keyed(self@), key@)].weight(round)
            } else {
                0
            },
    {
        match self.get_member(key) {
            Some(member) => member.get_total_eligible_stake(round),
            None => 0,
        }
    }

    /// Lowers what the member with `key` has in play by `unit`, or by all
    /// of it where that is less, and returns what was taken; nothing where
    /// there is no such member.
    pub fn subtract_from(&mut self, key: &PublicKey, unit: u64) -> (taken: u64)
        requires
            old(self).wf(),
        ensures
            final(self).wf(),
            has_key(keyed(old(self)@), key@) ==> {
                let i = rank(keyed(old(self)@), key@);
                &&& taken == old(self)@[i].taken(unit)
                &&& final(self)@ == old(self)@.update(i, old(self)@[i].after_subtract(unit))
            },
            !has_key(keyed(old(self)@), key@) ==> taken == 0 && final(self)@ == old(self)@,
    {
        proof {
            self.lemma_keyed(key@);
        }
        match self.members.search(key) {
            Ok(i) => {
                let member = self.members.value_at_mut(i);
                let taken = member.subtract_from_stake(unit);
                proof {
                    crate::member::lemma_subtract_weight(old(self)@[i as int], unit, 0);
                    assert(self@ =~= old(self)@.update(
                        i as int,
                        old(self)@[i as int].after_subtract(unit),
                    ));
                    assert forall|k: int| 0 <= k < self.members@.len() implies (
                    #[trigger] self.members@[k]).0 == (#[trigger] old(self).members@[k]).0 by {}
                    lemma_rank_same_keys(self.members@, old(self).members@, key@);
                }
                taken
            },
            Err(_) => 0,
        }
    }

    /// Sums up the total weight of all eligible stakes, where the sum fits.
    pub fn calc_total_eligible_weight(&self, round: u64) -> (total: Option<u128>)
        ensures
            match total {
                Some(t) => t == total_weight(self@, round),
                None => total_weight(self@, round) > u128::MAX,
            },
    {
        let len = self.members.len();
        let mut total: u128 = 0;
        let mut i: usize = 0;
        while i < len
            invariant
                i <= len,
                len == self@.len(),
                len == self.members@.len(),
                total == total_weight(self@.take(i as int), round),
            decreases len - i,
        {
            let weight = self.members.value_at(i).get_total_eligible_stake(round);
            proof {
                lemma_total_weight_take(self@, round, i as int);
            }
            match total.checked_add(weight) {
                Some(sum) => {
                    total = sum;
                },
                None => {
                    proof {
                        lemma_total_weight_grows(self@, round, i + 1);
                    }
                    return None;
                },
            }
            i += 1;
        }
        assert(self@.take(len as int) =~= self@);
        Some(total)
    }

    /// Makes one draw: walks the members in key order with `score`, and
    /// lowers what the member that the walk stops at has in play by one
    /// coin, or by all of it where that is less. Returns the key of that member and what was
    /// taken; `None` where there are no members.
    pub fn extract_and_subtract_member(&mut self, score: u128, round: u64) -> (drawn: Option<
        (PublicKey, u64),
    >)
        requires
            old(self).wf(),
            score <= total_weight(old(self)@, round),
        ensures
            final(self).wf(),
            match drawn {
                Some((key, taken)) => {
                    let i = walk(old(self)@, round, score as nat, 0);
                    &&& 0 <= i < old(self)@.len()
                    &&& key@ == old(self)@[i].key
                    &&& taken == old(self)@[i].taken(DUSK)
                    &&& final(self)@ == after_seat(old(self)@, i)
                },
                None => old(self)@.len() == 0 && final(self)@ == old(self)@,
            },
    {
        let len = self.members.len();
        let mut remaining = score;
        let mut i: usize = 0;
        while i < len
            invariant
                i <= len,
                len == self@.len(),
                len == self.members@.len(),
                *self == *old(self),
                self.wf(),
                walk(self@, round, score as nat, 0) == walk(self@, round, remaining as nat, i as int),
                remaining + total_weight(self@.take(i as int), round) <= total_weight(self@, round),
                i > 0 ==> remaining > 0,
            decreases len - i,
        {
            let weight = self.members.value_at(i).get_total_eligible_stake(round);
            proof {
                lemma_total_weight_take(self@, round, i as int);
            }
            if weight >= remaining {
                let member = self.members.value_at_mut(i);
                let taken = member.subtract_from_stake(DUSK);
                let key = *member.public_key();
                proof {
                    crate::member::lemma_subtract_weight(old(self)@[i as int], DUSK, round);
                    assert forall|k: int| 0 <= k < self.members@.len() implies (
                    #[trigger] self.members@[k]).0 == (#[trigger] old(self).members@[k]).0 by {}
                    lemma_rank_same_keys(self.members@, old(self).members@, Seq::<u8>::empty());
                }
                return Some((key, taken));
            }
            remaining = remaining - weight;
            i += 1;
        }
        proof {
            assert(self@.take(len as int) =~= self@);
        }
        None
    }

    /// The view of the provisioners for one sortition: a copy with every
    /// stake fully back in play. What a sortition takes, it takes from the
    /// copy; the provisioners themselves are left as they are.
    pub fn snapshot(&self) -> (copy: Self)
        requires
            self.wf(),
        ensures
            copy.wf(),
            copy@ == restored(self@),
    {
        let len = self.members.len();
        let mut copy = Provisioners { members: OrderedMap::new() };
        let mut i: usize = 0;
        while i < len
            invariant
                i <= len,
                len == self@.len(),
                len == self.members@.len(),
                self.wf(),
                copy.wf(),
                copy.members@.len() == i,
                forall|k: int|
                    0 <= k < i ==> (#[trigger] copy.members@[k]).0 == self.members@[k].0
                        && copy.members@[k].1@ == self.members@[k].1@.restored(),
            decreases len - i,
        {
            let key = self.members.key_at(i);
            let mut member = self.members.value_at(i).clone();
            member.restore_intermediate_value();
            proof {
                assert forall|j: int| 0 <= j < copy.members@.len() implies lex_lt(
                    #[trigger] copy.members@[j].0,
                    key@,
                ) by {
                    assert(lex_lt(self.members@[j].0, self.members@[i as int].0));
                }
            }
            copy.members.push_last(key, member);
            i += 1;
        }
        copy
    }

    /// Draws the committee as `create_committee` does, and returns beside
    /// the key of each seat what its draw took from the member. Where every
    /// draw took a full coin or what was left of the pool, the committee has
    /// as many seats as its size, or as many as coins cover the pool where
    /// those are fewer.
    pub fn draw_committee(&self, cfg: &Config) -> (drawn: (Vec<PublicKey>, Vec<u64>))
        requires
            self.wf(),
            cfg.committee_size <= u32::MAX,
            total_weight(restored(self@), cfg.round) <= u128::MAX,
        ensures
            encodings(drawn.0@) == crate::provisioners::committee(self@, *cfg),
            drawn.1@ == takes(self@, *cfg),
            drawn.0@.len() == drawn.1@.len(),
            drawn.0@.len() <= cfg.committee_size,
            full_draws(drawn.1@, total_weight(restored(self@), cfg.round)) ==> drawn.0@.len() == (
            if cfg.committee_size <= coins_to_cover(total_weight(restored(self@), cfg.round)) {
                cfg.committee_size as nat
            } else {
                coins_to_cover(total_weight(restored(self@), cfg.round))
            }),
    {
        let mut committee: Vec<PublicKey> = Vec::new();
        let mut taken_each: Vec<u64> = Vec::new();
        let mut provisioners = self.snapshot();
        let mut total: u128 = match provisioners.calc_total_eligible_weight(cfg.round) {
            Some(total) => total,
            None => 0,
        };
        let mut counter: u32 = 0;
        assert(encodings(committee@) =~= Seq::<Seq<u8>>::empty());
        while total > 0 && committee.len() < cfg.committee_size
            invariant
                encodings(committee@) + Seq::<Seq<u8>>::empty() =~= encodings(committee@),
                taken_each@ + Seq::<u64>::empty() =~= taken_each@,
                provisioners.wf(),
                counter == committee@.len(),
                committee@.len() == taken_each@.len(),
                committee@.len() <= cfg.committee_size <= u32::MAX,
                total <= total_weight(provisioners@, cfg.round),
                encodings(committee@) + committee_from(
                    provisioners@,
                    *cfg,
                    total as nat,
                    counter as nat,
                    (cfg.committee_size - committee@.len()) as nat,
                ) == crate::provisioners::committee(self@, *cfg),
                taken_each@ + takes_from(
                    provisioners@,
                    *cfg,
                    total as nat,
                    counter as nat,
                    (cfg.committee_size - committee@.len()) as nat,
                ) == takes(self@, *cfg),
            ensures
                encodings(committee@) == crate::provisioners::committee(self@, *cfg),
                taken_each@ == takes(self@, *cfg),
                committee@.len() == taken_each@.len(),
                committee@.len() <= cfg.committee_size,
            decreases cfg.committee_size - committee@.len(),
        {
            let hash = create_sortition_hash(cfg, counter);
            let score = generate_sortition_score(&hash, total);
            counter += 1;
            let ghost before = provisioners@;
            let ghost seated = encodings(committee@);
            let ghost took = taken_each@;
            match provisioners.extract_and_subtract_member(score, cfg.round) {
                Some((key, taken)) => {
                    proof {
                        let i = walk(before, cfg.round, score as nat, 0);
                        lemma_after_seat(before, cfg.round, i);
                    }
                    committee.push(key);
                    taken_each.push(taken);
                    total = if total > taken as u128 {
                        total - taken as u128
                    } else {
                        0
                    };
                    proof {
                        assert(encodings(committee@) =~= seated.push(key@));
                        let rest = committee_from(
                            provisioners@,
                            *cfg,
                            total as nat,
                            counter as nat,
                            (cfg.committee_size - committee@.len()) as nat,
                        );
                        assert(seated.push(key@) + rest =~= seated + (seq![key@] + rest));
                        let rest_takes = takes_from(
                            provisioners@,
                            *cfg,
                            total as nat,
                            counter as nat,
                            (cfg.committee_size - committee@.len()) as nat,
                        );
                        assert(took.push(taken) + rest_takes =~= took + (seq![taken] + rest_takes));
                    }
                },
                None => {
                    assert(total_weight(before, cfg.round) == 0);
                    break;
                },
            }
        }
        proof {
            if full_draws(taken_each@, total_weight(restored(self@), cfg.round)) {
                crate::committee::lemma_committee_size(self@, *cfg);
            }
        }
        (committee, taken_each)
    }

    /// Runs the deterministic sortition algorithm which determines the
    /// committee members for a given round, step and seed.
    ///
    /// Returns the public keys of the committee, one for each seat in the
    /// order of the draws. The provisioners themselves are left as they
    /// are: the draws are made on a copy.
    pub fn create_committee(&self, cfg: &Config) -> (committee: Vec<PublicKey>)
        requires
            self.wf(),
            cfg.committee_size <= u32::MAX,
            total_weight(restored(self@), cfg.round) <= u128::MAX,
        ensures
            encodings(committee@) == crate::provisioners::committee(self@, *cfg),
            committee@.len() <= cfg.committee_size,
    {
        let (committee, _) = self.draw_committee(cfg);
        committee
    }

    /// Draws the committee where the draw counter and the pool fit their
    /// machine integers, and says so where they do not.
    pub fn try_create_committee(&self, cfg: &Config) -> (committee: Option<Vec<PublicKey>>)
        requires
            self.wf(),
        ensures
            match committee {
                Some(keys) => {
                    &&& cfg.committee_size <= u32::MAX
                    &&& total_weight(restored(self@), cfg.round) <= u128::MAX
                    &&& encodings(keys@) == crate::provisioners::committee(self@, *cfg)
                    &&& keys@.len() <= cfg.committee_size
                },
                None => cfg.committee_size > u32::MAX || total_weight(restored(self@), cfg.round)
                    > u128::MAX,
            },
    {
        if cfg.committee_size > 0xffff_ffff {
            return None;
        }
        match self.snapshot().calc_total_eligible_weight(cfg.round) {
            Some(_) => Some(self.create_committee(cfg)),
            None => None,
        }
    }
}

} // verus!
