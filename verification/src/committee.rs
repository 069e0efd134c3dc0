//! What holds of every committee that sortition draws.

use crate::member::{lemma_weight_needs_eligible, MemberView};
use crate::provisioners::{
    after_seat, coins_to_cover, committee, committee_from, full_draws, keyed, keys_sorted,
    lemma_after_seat, pool_after, restored, takes, takes_from, total_weight, walk, DUSK,
};
use crate::sortition::{sortition_score, Config};
use vstd::prelude::*;

verus! {

/// `key` is the key of a member of `members` that has a stake counting at
/// `round`, or of the member that stands first.
pub open spec fn eligible_or_first(members: Seq<MemberView>, round: u64, key: Seq<u8>) -> bool {
    exists|j: int|
        0 <= j < members.len() && (#[trigger] members[j]).key == key && (members[j].eligible(round)
            || j == 0)
}

/// `key` is the key of a member of `members` that has a stake counting at
/// `round`.
pub open spec fn key_of_eligible(members: Seq<MemberView>, round: u64, key: Seq<u8>) -> bool {
    exists|j: int|
        0 <= j < members.len() && (#[trigger] members[j]).key == key && members[j].eligible(round)
}

/// A walk that passes the member it starts at, or starts with a positive
/// score, stops at a member with weight.
pub proof fn lemma_walk_weight(members: Seq<MemberView>, round: u64, remaining: nat, from: int)
    requires
        0 <= from <= members.len(),
    ensures
        from <= walk(members, round, remaining, from) <= members.len(),
        ({
            let i = walk(members, round, remaining, from);
            i < members.len() && (remaining > 0 || i > from) ==> members[i].weight(round) > 0
        }),
    decreases members.len() - from,
{
    if from < members.len() && members[from].weight(round) < remaining {
        lemma_walk_weight(
            members,
            round,
            (remaining - members[from].weight(round)) as nat,
            from + 1,
        );
    }
}

/// A walk stops at the first member up to which the weights add up to the
/// score.
pub proof fn lemma_walk_stops(members: Seq<MemberView>, round: u64, remaining: nat, from: int)
    requires
        0 <= from <= members.len(),
    ensures
        ({
            let i = walk(members, round, remaining, from);
            &&& from <= i <= members.len()
            &&& i < members.len() ==> remaining + total_weight(members.take(from), round)
                <= total_weight(members.take(i + 1), round)
            &&& forall|k: int|
                from <= k < i ==> total_weight(#[trigger] members.take(k + 1), round) < remaining
                    + total_weight(members.take(from), round)
        }),
    decreases members.len() - from,
{
    if from < members.len() {
        crate::provisioners::lemma_total_weight_take(members, round, from);
        if members[from].weight(round) < remaining {
            lemma_walk_stops(
                members,
                round,
                (remaining - members[from].weight(round)) as nat,
                from + 1,
            );
        }
    }
}

/// A walk with a score that the members from `from` on can cover stops at
/// one of them.
pub proof fn lemma_walk_found(members: Seq<MemberView>, round: u64, remaining: nat, from: int)
    requires
        0 <= from < members.len(),
        remaining + total_weight(members.take(from), round) <= total_weight(members, round),
    ensures
        from <= walk(members, round, remaining, from) < members.len(),
    decreases members.len() - from,
{
    crate::provisioners::lemma_total_weight_take(members, round, from);
    if members[from].weight(round) < remaining {
        lemma_walk_found(
            members,
            round,
            (remaining - members[from].weight(round)) as nat,
            from + 1,
        );
    }
}

/// What is left of the pool when the draws end.
pub open spec fn pool_left(
    members: Seq<MemberView>,
    cfg: Config,
    total: nat,
    counter: nat,
    seats: nat,
) -> nat
    decreases seats,
{
    if total == 0 || seats == 0 {
        total
    } else {
        let i = walk(members, cfg.round, sortition_score(cfg, counter, total), 0);
        if 0 <= i < members.len() {
            pool_left(
                after_seat(members, i),
                cfg,
                pool_after(total, members[i].taken(DUSK) as nat),
                counter + 1,
                (seats - 1) as nat,
            )
        } else {
            total
        }
    }
}

/// While the pool is no more than what the members weigh, every draw
/// finds its member: the committee fills all its seats, or the draws end
/// because the pool is empty.
pub proof fn lemma_committee_from_full_or_drained(
    members: Seq<MemberView>,
    cfg: Config,
    total: nat,
    counter: nat,
    seats: nat,
)
    requires
        total <= total_weight(members, cfg.round),
    ensures
        committee_from(members, cfg, total, counter, seats).len() == seats || pool_left(
            members,
            cfg,
            total,
            counter,
            seats,
        ) == 0,
    decreases seats,
{
    if total != 0 && seats != 0 {
        let score = sortition_score(cfg, counter, total);
        assert(score < total) by (nonlinear_arith)
            requires
                score == crate::encoding::be_value(crate::sortition::sortition_hash(cfg, counter))
                    % total,
                total > 0,
        ;
        lemma_walk_found(members, cfg.round, score, 0);
        let i = walk(members, cfg.round, score, 0);
        lemma_after_seat(members, cfg.round, i);
        lemma_committee_from_full_or_drained(
            after_seat(members, i),
            cfg,
            pool_after(total, members[i].taken(DUSK) as nat),
            counter + 1,
            (seats - 1) as nat,
        );
    }
}

/// A committee is shorter than its size only where the pool was emptied
/// before the seats were filled.
pub proof fn lemma_committee_full_or_drained(members: Seq<MemberView>, cfg: Config)
    ensures
        committee(members, cfg).len() == cfg.committee_size || pool_left(
            restored(members),
            cfg,
            total_weight(restored(members), cfg.round),
            0,
            cfg.committee_size as nat,
        ) == 0,
{
    lemma_committee_from_full_or_drained(
        restored(members),
        cfg,
        total_weight(restored(members), cfg.round),
        0,
        cfg.committee_size as nat,
    );
}

/// A committee never has more keys than seats.
pub proof fn lemma_committee_from_len(
    members: Seq<MemberView>,
    cfg: Config,
    total: nat,
    counter: nat,
    seats: nat,
)
    ensures
        committee_from(members, cfg, total, counter, seats).len() <= seats,
    decreases seats,
{
    if total != 0 && seats != 0 {
        let i = walk(members, cfg.round, sortition_score(cfg, counter, total), 0);
        if 0 <= i < members.len() {
            lemma_committee_from_len(
                after_seat(members, i),
                cfg,
                pool_after(total, members[i].taken(DUSK) as nat),
                counter + 1,
                (seats - 1) as nat,
            );
        }
    }
}

proof fn lemma_committee_from_members(
    members: Seq<MemberView>,
    cfg: Config,
    total: nat,
    counter: nat,
    seats: nat,
)
    ensures
        forall|k: int|
            0 <= k < committee_from(members, cfg, total, counter, seats).len() ==> eligible_or_first(
                members,
                cfg.round,
                #[trigger] committee_from(members, cfg, total, counter, seats)[k],
            ),
    decreases seats,
{
    let drawn = committee_from(members, cfg, total, counter, seats);
    if total != 0 && seats != 0 {
        let score = sortition_score(cfg, counter, total);
        let i = walk(members, cfg.round, score, 0);
        if 0 <= i < members.len() {
            let after = after_seat(members, i);
            let rest = committee_from(
                after,
                cfg,
                pool_after(total, members[i].taken(DUSK) as nat),
                counter + 1,
                (seats - 1) as nat,
            );
            lemma_committee_from_members(
                after,
                cfg,
                pool_after(total, members[i].taken(DUSK) as nat),
                counter + 1,
                (seats - 1) as nat,
            );
            lemma_after_seat(members, cfg.round, i);
            lemma_walk_weight(members, cfg.round, score, 0);
            assert forall|k: int| 0 <= k < drawn.len() implies eligible_or_first(
                members,
                cfg.round,
                #[trigger] drawn[k],
            ) by {
                if k == 0 {
                    if i > 0 {
                        lemma_weight_needs_eligible(members[i].stakes, cfg.round);
                    }
                } else {
                    let j = choose|j: int|
                        0 <= j < after.len() && (#[trigger] after[j]).key == rest[k - 1] && (
                        after[j].eligible(cfg.round) || j == 0);
                    if j == i {
                        crate::member::lemma_subtract_weight(members[i], DUSK, cfg.round);
                    } else {
                        assert(after[j] == members[j]);
                    }
                }
            }
        }
    }
}

/// Every seat of a committee goes to a member with a stake that counts at
/// the round, or to the member that stands first in key order: a score of
/// zero stops the walk at the first member whatever it holds.
pub proof fn lemma_committee_members(members: Seq<MemberView>, cfg: Config)
    ensures
        forall|k: int|
            0 <= k < committee(members, cfg).len() ==> eligible_or_first(
                members,
                cfg.round,
                #[trigger] committee(members, cfg)[k],
            ),
{
    let fresh = restored(members);
    lemma_committee_from_members(
        fresh,
        cfg,
        total_weight(fresh, cfg.round),
        0,
        cfg.committee_size as nat,
    );
    assert forall|k: int| 0 <= k < committee(members, cfg).len() implies eligible_or_first(
        members,
        cfg.round,
        #[trigger] committee(members, cfg)[k],
    ) by {
        let key = committee(members, cfg)[k];
        let j = choose|j: int|
            0 <= j < fresh.len() && (#[trigger] fresh[j]).key == key && (fresh[j].eligible(cfg.round)
                || j == 0);
        lemma_restored_eligible(members[j], cfg.round);
    }
}

/// Putting the stakes back in play changes neither the key of a member nor
/// whether it has a stake that counts.
pub proof fn lemma_restored_eligible(member: MemberView, round: u64)
    ensures
        member.restored().key == member.key,
        member.restored().eligible(round) == member.eligible(round),
{
    let fresh = member.restored();
    if member.eligible(round) {
        let k = choose|k: int|
            0 <= k < member.stakes.len() && (#[trigger] member.stakes[k]).eligible_since <= round;
        assert(fresh.stakes[k].eligible_since <= round);
    }
    if fresh.eligible(round) {
        let k = choose|k: int|
            0 <= k < fresh.stakes.len() && (#[trigger] fresh.stakes[k]).eligible_since <= round;
    }
}

/// Where the member that stands first in key order has a stake that
/// counts at the round, sortition never selects a key without one.
pub proof fn lemma_committee_eligible(members: Seq<MemberView>, cfg: Config)
    requires
        members.len() > 0 ==> members[0].eligible(cfg.round),
    ensures
        forall|k: int|
            0 <= k < committee(members, cfg).len() ==> key_of_eligible(
                members,
                cfg.round,
                #[trigger] committee(members, cfg)[k],
            ),
{
    lemma_committee_members(members, cfg);
    assert forall|k: int| 0 <= k < committee(members, cfg).len() implies key_of_eligible(
        members,
        cfg.round,
        #[trigger] committee(members, cfg)[k],
    ) by {
        let key = committee(members, cfg)[k];
        let j = choose|j: int|
            0 <= j < members.len() && (#[trigger] members[j]).key == key && (members[j].eligible(
                cfg.round,
            ) || j == 0);
    }
}

/// While the pool is no more than what the members weigh, and every draw
/// takes a full coin or what is left of the pool, the draws fill all the
/// seats, or as many as coins cover the pool where those are fewer.
pub proof fn lemma_committee_from_count(
    members: Seq<MemberView>,
    cfg: Config,
    total: nat,
    counter: nat,
    seats: nat,
)
    requires
        total <= total_weight(members, cfg.round),
        full_draws(takes_from(members, cfg, total, counter, seats), total),
    ensures
        takes_from(members, cfg, total, counter, seats).len() == committee_from(
            members,
            cfg,
            total,
            counter,
            seats,
        ).len(),
        committee_from(members, cfg, total, counter, seats).len() == if seats <= coins_to_cover(
            total,
        ) {
            seats
        } else {
            coins_to_cover(total)
        },
    decreases seats,
{
    if total != 0 && seats != 0 {
        let score = sortition_score(cfg, counter, total);
        assert(score < total) by (nonlinear_arith)
            requires
                score == crate::encoding::be_value(crate::sortition::sortition_hash(cfg, counter))
                    % total,
                total > 0,
        ;
        assert(members.take(0) =~= Seq::<MemberView>::empty());
        lemma_walk_found(members, cfg.round, score, 0);
        let i = walk(members, cfg.round, score, 0);
        lemma_after_seat(members, cfg.round, i);
        let taken = members[i].taken(DUSK);
        let left = pool_after(total, taken as nat);
        let all = takes_from(members, cfg, total, counter, seats);
        let rest = takes_from(after_seat(members, i), cfg, left, counter + 1, (seats - 1) as nat);
        assert(all.drop_first() =~= rest);
        assert(all[0] == taken);
        lemma_committee_from_count(after_seat(members, i), cfg, left, counter + 1, (seats - 1) as nat);
    }
}

/// Where every draw takes a full coin or what is left of the pool, the
/// committee has as many keys as there are seats, or as many as coins
/// cover the pool where those are fewer: the pool in coins, rounded up.
pub proof fn lemma_committee_size(members: Seq<MemberView>, cfg: Config)
    requires
        full_draws(takes(members, cfg), total_weight(restored(members), cfg.round)),
    ensures
        takes(members, cfg).len() == committee(members, cfg).len(),
        committee(members, cfg).len() == if cfg.committee_size <= coins_to_cover(
            total_weight(restored(members), cfg.round),
        ) {
            cfg.committee_size as nat
        } else {
            coins_to_cover(total_weight(restored(members), cfg.round))
        },
{
    lemma_committee_from_count(
        restored(members),
        cfg,
        total_weight(restored(members), cfg.round),
        0,
        cfg.committee_size as nat,
    );
}

/// The number of seats that `key` has in `committee`.
pub open spec fn seats_of(committee: Seq<Seq<u8>>, key: Seq<u8>) -> nat
    decreases committee.len(),
{
    if committee.len() == 0 {
        0
    } else {
        seats_of(committee.drop_first(), key) + if committee[0] == key {
            1nat
        } else {
            0nat
        }
    }
}

/// Every one of the draws took something.
pub open spec fn every_draw_takes(takes: Seq<u64>) -> bool {
    forall|j: int| 0 <= j < takes.len() ==> #[trigger] takes[j] > 0
}

/// Members in key order have different keys.
pub proof fn lemma_keys_differ(members: Seq<MemberView>, i: int, j: int)
    requires
        keys_sorted(members),
        0 <= i < members.len(),
        0 <= j < members.len(),
        i != j,
    ensures
        members[i].key != members[j].key,
{
    let entries = keyed(members);
    assert(entries[i].0 == members[i].key && entries[j].0 == members[j].key);
    if i < j {
        assert(crate::keys::lex_lt(entries[i].0, entries[j].0));
    } else {
        assert(crate::keys::lex_lt(entries[j].0, entries[i].0));
    }
    crate::keys::lemma_lex_lt_irreflexive(members[i].key);
}

/// Where every draw takes something, member `m` gets no more seats than
/// coins cover what it has in play.
pub proof fn lemma_seats_from_capped(
    members: Seq<MemberView>,
    cfg: Config,
    total: nat,
    counter: nat,
    seats: nat,
    m: int,
)
    requires
        keys_sorted(members),
        0 <= m < members.len(),
        every_draw_takes(takes_from(members, cfg, total, counter, seats)),
    ensures
        seats_of(committee_from(members, cfg, total, counter, seats), members[m].key)
            <= coins_to_cover(members[m].in_play()),
    decreases seats,
{
    if total != 0 && seats != 0 {
        let i = walk(members, cfg.round, sortition_score(cfg, counter, total), 0);
        if 0 <= i < members.len() {
            let after = after_seat(members, i);
            let taken = members[i].taken(DUSK);
            let left = pool_after(total, taken as nat);
            let all = committee_from(members, cfg, total, counter, seats);
            let rest = committee_from(after, cfg, left, counter + 1, (seats - 1) as nat);
            let all_takes = takes_from(members, cfg, total, counter, seats);
            let rest_takes = takes_from(after, cfg, left, counter + 1, (seats - 1) as nat);
            lemma_after_seat(members, cfg.round, i);
            assert(all.drop_first() =~= rest);
            assert(all[0] == members[i].key);
            assert(all_takes[0] == taken);
            assert forall|j: int| 0 <= j < rest_takes.len() implies #[trigger] rest_takes[j] > 0 by {
                assert(rest_takes[j] == all_takes[j + 1]);
            }
            lemma_seats_from_capped(after, cfg, left, counter + 1, (seats - 1) as nat, m);
            assert(after[m].key == members[m].key);
            if i == m {
                crate::member::lemma_subtract_weight(members[m], DUSK, cfg.round);
            } else {
                lemma_keys_differ(members, i, m);
                assert(after[m] == members[m]);
            }
        }
    }
}

/// Seats are capped in proportion to stake: where every draw takes
/// something, no key gets more seats than coins cover the stakes locked
/// under it. A draw takes nothing only where a score of zero stops the
/// walk at a first member that has nothing left in play.
pub proof fn lemma_seats_capped(members: Seq<MemberView>, cfg: Config, m: int)
    requires
        keys_sorted(members),
        0 <= m < members.len(),
        every_draw_takes(takes(members, cfg)),
    ensures
        seats_of(committee(members, cfg), members[m].key) <= coins_to_cover(
            members[m].restored().in_play(),
        ),
        (forall|k: int|
            0 <= k < members[m].stakes.len() ==> (#[trigger] members[m].stakes[k]).eligible_since
                <= cfg.round) ==> seats_of(committee(members, cfg), members[m].key)
            <= coins_to_cover(members[m].restored().weight(cfg.round)),
{
    let fresh = restored(members);
    if forall|k: int|
        0 <= k < members[m].stakes.len() ==> (#[trigger] members[m].stakes[k]).eligible_since
            <= cfg.round {
        let stakes = members[m].restored().stakes;
        assert forall|k: int| 0 <= k < stakes.len() implies (#[trigger] stakes[k]).eligible_since
            <= cfg.round by {
            assert(members[m].stakes[k].eligible_since <= cfg.round);
        }
        crate::member::lemma_in_play_is_weight(stakes, cfg.round);
    }
    assert forall|j: int| 0 <= j < members.len() implies (#[trigger] keyed(fresh)[j]).0 == (
    #[trigger] keyed(members)[j]).0 by {
        assert(fresh[j].key == members[j].key);
    }
    crate::ordered_map::lemma_rank_same_keys(keyed(fresh), keyed(members), Seq::<u8>::empty());
    lemma_seats_from_capped(
        fresh,
        cfg,
        total_weight(fresh, cfg.round),
        0,
        cfg.committee_size as nat,
        m,
    );
}

/// Two runs of sortition on the same provisioners with the same seed,
/// round, step and size give the same keys in the same order.
pub proof fn lemma_committee_deterministic(
    first: Seq<MemberView>,
    second: Seq<MemberView>,
    cfg_first: Config,
    cfg_second: Config,
)
    requires
        first == second,
        cfg_first.seed@ == cfg_second.seed@,
        cfg_first.round == cfg_second.round,
        cfg_first.step == cfg_second.step,
        cfg_first.committee_size == cfg_second.committee_size,
    ensures
        committee(first, cfg_first) == committee(second, cfg_second),
{
    assert(cfg_first.seed =~= cfg_second.seed);
}

} // verus!
