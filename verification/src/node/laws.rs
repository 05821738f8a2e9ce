//! What holds of a node across its steps.

use vstd::prelude::*;
use crate::agent::{CardView, EnvelopeView, TaskView};
use crate::load::{LoadBucket, LoadStatus};
use crate::node::delegation::{
    after_choice, best_rank, broadcast_choice, by_rank, chosen, collected_slot, counts_for, delegated, failed_result,
    first_task, first_trusted, over, rank_key, rank_of, tier, trusted_keys, DelegationRequest,
    DelegationStrategy, SlotView,
};
use crate::node::discovery::{
    acceptable, after_presence, after_presences, cards_by_key, openable, own_reports,
    presence_entry, report_place, reports_to, ReceivedPresence, ReportView,
};
use crate::node::intake::{vetting, Asked, PollState};
use crate::node::payment::{after_check, asks_payment, payment_check, CheckView};
use crate::node::offload::slimmed;
use crate::node::poll::{after_admission, extracted, let_in, ExtractView};
use crate::node::{load_of, NodeState};
use crate::order::{filtered_members, sorted_by_sorts};
use crate::presence::{
    capable_rows, eviction_hides_nothing, expired_at, live_rows, PeerRows, PeerView,
};
use crate::table::{distinct_keys, has_key, lookup, put_then_look, with_row};
use crate::trust::{sealing_key, trusts, TrustEntryView, TrustMode, TrustView};

verus! {

// ---- delegation ----

/// Whether some row has the key and the given rank.
pub open spec fn has_peer(rows: PeerRows, id: Seq<char>, rank: int) -> bool {
    exists|i: int|
        0 <= i < rows.len() && (#[trigger] rows[i]).0 == id && rank_of(rows[i].1.load) == rank
}

/// Where no trusted row is found, none is there; otherwise the one found is
/// there and trusted, and none before it is trusted.
proof fn first_trusted_is_first(rows: PeerRows, trust: TrustView, cap: Option<Seq<char>>)
    ensures
        first_trusted(rows, trust, cap) is None <==> forall|i: int|
            0 <= i < rows.len() ==> !counts_for(trust, (#[trigger] rows[i]).0, cap),
        first_trusted(rows, trust, cap) is Some ==> exists|i: int|
            0 <= i < rows.len() && (#[trigger] rows[i]).0 == first_trusted(rows, trust, cap)->0
                && counts_for(trust, rows[i].0, cap) && forall|j: int|
                0 <= j < i ==> !counts_for(trust, (#[trigger] rows[j]).0, cap),
    decreases rows.len(),
{
    if rows.len() > 0 {
        if counts_for(trust, rows[0].0, cap) {
            assert(rows[0].0 == first_trusted(rows, trust, cap)->0);
        } else {
            let rest = rows.drop_first();
            first_trusted_is_first(rest, trust, cap);
            assert forall|i: int| 0 <= i < rest.len() implies #[trigger] rest[i] == rows[i + 1] by {}
            if first_trusted(rest, trust, cap) is Some {
                let i = choose|i: int|
                    0 <= i < rest.len() && (#[trigger] rest[i]).0 == first_trusted(
                        rest,
                        trust,
                        cap,
                    )->0 && counts_for(trust, rest[i].0, cap) && forall|j: int|
                        0 <= j < i ==> !counts_for(trust, (#[trigger] rest[j]).0, cap);
                assert(rows[i + 1].0 == first_trusted(rows, trust, cap)->0);
                assert forall|j: int| 0 <= j < i + 1 implies !counts_for(
                    trust,
                    (#[trigger] rows[j]).0,
                    cap,
                ) by {
                    if j > 0 {
                        assert(rest[j - 1] == rows[j]);
                    }
                }
            } else {
                assert forall|i: int| 0 <= i < rows.len() implies !counts_for(
                    trust,
                    (#[trigger] rows[i]).0,
                    cap,
                ) by {
                    if i > 0 {
                        assert(rest[i - 1] == rows[i]);
                    }
                }
            }
        }
    }
}

/// A sorted list holds the items of the list that was sorted.
proof fn sorting_keeps_items(rows: PeerRows, row: (Seq<char>, PeerView))
    ensures
        by_rank(rows).contains(row) <==> rows.contains(row),
{
    broadcast use vstd::seq_lib::group_to_multiset_ensures;

    sorted_by_sorts(rows, rank_key());
    assert(by_rank(rows).to_multiset().count(row) == rows.to_multiset().count(row));
}

/// Whether a key is that of a trusted peer among some, and none of them that is
/// trusted is less busy.
pub open spec fn least_busy(
    rows: PeerRows,
    trust: TrustView,
    capability: Option<Seq<char>>,
    id: Seq<char>,
) -> bool {
    &&& counts_for(trust, id, capability)
    &&& exists|row: (Seq<char>, PeerView)| #[trigger]
        rows.contains(row) && row.0 == id && forall|other: (Seq<char>, PeerView)| #[trigger]
            rows.contains(other) && counts_for(trust, other.0, capability) ==> rank_of(row.1.load)
                <= rank_of(other.1.load)
}

/// Whether none of some peers is trusted.
pub open spec fn none_trusted(rows: PeerRows, trust: TrustView, capability: Option<Seq<char>>) -> bool {
    forall|row: (Seq<char>, PeerView)| #[trigger]
        rows.contains(row) ==> !counts_for(trust, row.0, capability)
}

/// The first trusted peer in the order of ranks is the least busy one, and there
/// is one exactly where some peer is trusted.
proof fn first_by_rank_is_least_busy(rows: PeerRows, trust: TrustView, cap: Option<Seq<char>>)
    ensures
        match first_trusted(by_rank(rows), trust, cap) {
            Some(id) => least_busy(rows, trust, cap, id),
            None => none_trusted(rows, trust, cap),
        },
{
    let sorted = by_rank(rows);
    first_trusted_is_first(sorted, trust, cap);
    sorted_by_sorts(rows, rank_key());
    assert forall|row: (Seq<char>, PeerView)| #[trigger] rows.contains(row) implies sorted.contains(
        row,
    ) by {
        sorting_keeps_items(rows, row);
    }
    match first_trusted(sorted, trust, cap) {
        Some(id) => {
            let i = choose|i: int|
                0 <= i < sorted.len() && (#[trigger] sorted[i]).0 == id && counts_for(
                    trust,
                    sorted[i].0,
                    cap,
                ) && forall|j: int| 0 <= j < i ==> !counts_for(trust, (#[trigger] sorted[j]).0, cap);
            let row = sorted[i];
            sorting_keeps_items(rows, row);
            assert(rows.contains(row));
            assert forall|other: (Seq<char>, PeerView)| #[trigger]
                rows.contains(other) && counts_for(trust, other.0, cap) implies rank_of(row.1.load)
                <= rank_of(other.1.load) by {
                let j = choose|j: int| 0 <= j < sorted.len() && sorted[j] == other;
                assert(j >= i);
                assert(rank_key()(sorted[i]) <= rank_key()(sorted[j]));
            }
        },
        None => {
            assert forall|row: (Seq<char>, PeerView)| #[trigger]
                rows.contains(row) implies !counts_for(trust, row.0, cap) by {
                let j = choose|j: int| 0 <= j < sorted.len() && sorted[j] == row;
                assert(!counts_for(trust, sorted[j].0, cap));
            }
        },
    }
}

/// First-available delegation goes to a peer that is live and trusted, and there
/// is no trusted live peer that is less busy. It fails exactly when no live peer
/// is trusted.
pub proof fn first_available_is_least_busy(st: NodeState, now: u64)
    ensures
        match chosen(st, DelegationStrategy::FirstAvailable, now) {
            Ok(id) => least_busy(live_rows(st.peers, now), st.trust, None, id),
            Err(_) => none_trusted(live_rows(st.peers, now), st.trust, None),
        },
{
    first_by_rank_is_least_busy(live_rows(st.peers, now), st.trust, None);
}

/// Delegation by capability goes to a peer that is live, offers the capability
/// and is trusted for it, and there is no such peer that is less busy. It fails
/// exactly when there is no such peer.
pub proof fn capability_match_is_least_busy(st: NodeState, capability: String, now: u64)
    ensures
        match chosen(st, DelegationStrategy::CapabilityMatch { capability }, now) {
            Ok(id) => least_busy(
                capable_rows(st.peers, capability@, now),
                st.trust,
                Some(capability@),
                id,
            ),
            Err(_) => none_trusted(
                capable_rows(st.peers, capability@, now),
                st.trust,
                Some(capability@),
            ),
        },
{
    first_by_rank_is_least_busy(
        capable_rows(st.peers, capability@, now),
        st.trust,
        Some(capability@),
    );
}

/// The lowest rank is that of some peer, and no peer has a lower one.
proof fn best_rank_is_lowest(rows: PeerRows)
    requires
        rows.len() > 0,
    ensures
        forall|i: int| 0 <= i < rows.len() ==> best_rank(rows) <= rank_of((#[trigger] rows[i]).1.load),
        exists|i: int| 0 <= i < rows.len() && best_rank(rows) == rank_of((#[trigger] rows[i]).1.load),
    decreases rows.len(),
{
    if rows.len() == 1 {
        assert(best_rank(rows) == rank_of(rows[0].1.load));
    } else {
        let head = rows.drop_last();
        best_rank_is_lowest(head);
        assert forall|i: int| 0 <= i < rows.len() implies best_rank(rows) <= rank_of(
            (#[trigger] rows[i]).1.load,
        ) by {
            if i < head.len() {
                assert(head[i] == rows[i]);
            }
        }
        let k = choose|k: int|
            0 <= k < head.len() && best_rank(head) == rank_of((#[trigger] head[k]).1.load);
        assert(rows[k] == head[k]);
        assert(rows[rows.len() - 1] == rows.last());
    }
}

/// A tier holds exactly the trusted peers of its rank.
proof fn tier_is_exact(rows: PeerRows, rank: int, trust: TrustView, id: Seq<char>)
    ensures
        tier(rows, rank, trust).contains(id) <==> trusts(trust, id) && has_peer(rows, id, rank),
    decreases rows.len(),
{
    if rows.len() > 0 {
        let head = rows.drop_last();
        let before = tier(head, rank, trust);
        let after = tier(rows, rank, trust);
        tier_is_exact(head, rank, trust, id);
        assert(forall|x: Seq<char>| before.push(x).contains(id) <==> before.contains(id) || x == id)
            by {
            assert forall|x: Seq<char>| before.push(x).contains(id) <==> before.contains(id) || x
                == id by {
                if before.contains(id) {
                    let k = choose|k: int| 0 <= k < before.len() && before[k] == id;
                    assert(before.push(x)[k] == id);
                }
                if x == id {
                    assert(before.push(x)[before.len() as int] == id);
                }
            }
        }
        if has_peer(rows, id, rank) {
            let i = choose|i: int|
                0 <= i < rows.len() && (#[trigger] rows[i]).0 == id && rank_of(rows[i].1.load)
                    == rank;
            if i < head.len() {
                assert(head[i] == rows[i]);
                assert(has_peer(head, id, rank));
            }
        }
        if has_peer(head, id, rank) {
            let i = choose|i: int|
                0 <= i < head.len() && (#[trigger] head[i]).0 == id && rank_of(head[i].1.load)
                    == rank;
            assert(rows[i] == head[i]);
        }
        assert(rows[rows.len() - 1] == rows.last());
    }
}

/// Round robin chooses among the trusted peers of the lowest rank that any live
/// peer has, and among no others.
pub proof fn round_robin_stays_in_the_best_tier(st: NodeState, now: u64)
    requires
        chosen(st, DelegationStrategy::RoundRobin, now) is Ok,
    ensures
        trusts(st.trust, chosen(st, DelegationStrategy::RoundRobin, now)->Ok_0),
        has_peer(
            live_rows(st.peers, now),
            chosen(st, DelegationStrategy::RoundRobin, now)->Ok_0,
            best_rank(live_rows(st.peers, now)),
        ),
        forall|i: int|
            0 <= i < live_rows(st.peers, now).len() ==> best_rank(live_rows(st.peers, now))
                <= rank_of((#[trigger] live_rows(st.peers, now)[i]).1.load),
{
    let live = live_rows(st.peers, now);
    let choice = tier(live, best_rank(live), st.trust);
    let id = chosen(st, DelegationStrategy::RoundRobin, now)->Ok_0;
    assert(choice.contains(id));
    tier_is_exact(live, best_rank(live), st.trust, id);
    if live.len() > 0 {
        best_rank_is_lowest(live);
    }
}

/// The peers among which round robin takes turns at the given time.
pub open spec fn turn_takers(st: NodeState, now: u64) -> Seq<Seq<char>> {
    tier(live_rows(st.peers, now), best_rank(live_rows(st.peers, now)), st.trust)
}

/// The node after round-robin delegations at the given times.
pub open spec fn after_turns(st: NodeState, times: Seq<u64>) -> NodeState
    decreases times.len(),
{
    if times.len() == 0 {
        st
    } else {
        delegated(
            after_choice(
                after_turns(st, times.drop_last()),
                DelegationStrategy::RoundRobin,
                times.last(),
            ),
            1,
        )
    }
}

/// The peer that the `k`-th of some round-robin delegations chooses.
pub open spec fn turn(st: NodeState, times: Seq<u64>, k: int) -> Result<Seq<char>, Seq<char>> {
    chosen(after_turns(st, times.take(k)), DelegationStrategy::RoundRobin, times[k])
}

proof fn live_rows_keep_keys_distinct(rows: PeerRows, now: u64)
    requires
        distinct_keys(rows),
    ensures
        distinct_keys(live_rows(rows, now)),
        forall|id: Seq<char>| #[trigger] has_key(live_rows(rows, now), id) ==> has_key(rows, id),
    decreases rows.len(),
{
    reveal(Seq::filter);
    if rows.len() > 0 {
        let head = rows.drop_last();
        let last = rows.last();
        assert(rows[rows.len() - 1] == last);
        assert forall|i: int, j: int|
            0 <= i < head.len() && 0 <= j < head.len() && (#[trigger] head[i]).0 == (
            #[trigger] head[j]).0 implies i == j by {
            assert(rows[i].0 == rows[j].0);
        }
        live_rows_keep_keys_distinct(head, now);
        let kept = live_rows(head, now);
        let all = live_rows(rows, now);
        assert forall|id: Seq<char>| has_key(head, id) implies has_key(rows, id) && id != last.0 by {
            let i = choose|i: int| 0 <= i < head.len() && (#[trigger] head[i]).0 == id;
            assert(rows[i].0 == id);
        }
        assert forall|i: int, j: int|
            0 <= i < all.len() && 0 <= j < all.len() && (#[trigger] all[i]).0 == (
            #[trigger] all[j]).0 implies i == j by {
            if i < kept.len() && j < kept.len() {
                assert(kept[i].0 == kept[j].0);
            } else if i < kept.len() {
                assert(kept[i].0 == all[i].0);
                assert(has_key(kept, all[i].0));
            } else if j < kept.len() {
                assert(kept[j].0 == all[j].0);
                assert(has_key(kept, all[j].0));
            }
        }
        assert forall|id: Seq<char>| #[trigger] has_key(all, id) implies has_key(rows, id) by {
            let i = choose|i: int| 0 <= i < all.len() && (#[trigger] all[i]).0 == id;
            if i < kept.len() {
                assert(kept[i].0 == id);
                assert(has_key(kept, id));
            }
        }
    }
}

/// Nobody stands in a tier twice.
proof fn tier_has_no_repeats(rows: PeerRows, rank: int, trust: TrustView)
    requires
        distinct_keys(rows),
    ensures
        tier(rows, rank, trust).no_duplicates(),
    decreases rows.len(),
{
    if rows.len() > 0 {
        let head = rows.drop_last();
        let last = rows.last();
        assert(rows[rows.len() - 1] == last);
        assert forall|i: int, j: int|
            0 <= i < head.len() && 0 <= j < head.len() && (#[trigger] head[i]).0 == (
            #[trigger] head[j]).0 implies i == j by {
            assert(rows[i].0 == rows[j].0);
        }
        tier_has_no_repeats(head, rank, trust);
        tier_is_exact(head, rank, trust, last.0);
        assert(!tier(head, rank, trust).contains(last.0)) by {
            if has_peer(head, last.0, rank) {
                let i = choose|i: int|
                    0 <= i < head.len() && (#[trigger] head[i]).0 == last.0 && rank_of(
                        head[i].1.load,
                    ) == rank;
                assert(rows[i].0 == last.0);
            }
        }
    }
}

/// Where all live peers are trusted and equally busy, all of them take turns.
pub proof fn equals_all_take_turns(st: NodeState, now: u64, rank: int)
    requires
        forall|i: int|
            0 <= i < live_rows(st.peers, now).len() ==> trusts(
                st.trust,
                (#[trigger] live_rows(st.peers, now)[i]).0,
            ) && rank_of(live_rows(st.peers, now)[i].1.load) == rank,
    ensures
        turn_takers(st, now) == Seq::new(
            live_rows(st.peers, now).len(),
            |i: int| live_rows(st.peers, now)[i].0,
        ),
{
    let live = live_rows(st.peers, now);
    if live.len() > 0 {
        best_rank_is_lowest(live);
        let k = choose|k: int|
            0 <= k < live.len() && best_rank(live) == rank_of((#[trigger] live[k]).1.load);
        assert(rank_of(live[k].1.load) == rank);
    }
    whole_tier(live, best_rank(live), st.trust);
}

proof fn whole_tier(rows: PeerRows, rank: int, trust: TrustView)
    requires
        forall|i: int|
            0 <= i < rows.len() ==> trusts(trust, (#[trigger] rows[i]).0) && rank_of(
                rows[i].1.load,
            ) == rank,
    ensures
        tier(rows, rank, trust) == Seq::new(rows.len(), |i: int| rows[i].0),
    decreases rows.len(),
{
    if rows.len() > 0 {
        let head = rows.drop_last();
        assert forall|i: int| 0 <= i < head.len() implies trusts(trust, (#[trigger] head[i]).0)
            && rank_of(head[i].1.load) == rank by {
            assert(rows[i] == head[i]);
        }
        whole_tier(head, rank, trust);
        assert(rows[rows.len() - 1] == rows.last());
    }
    assert(tier(rows, rank, trust) =~= Seq::new(rows.len(), |i: int| rows[i].0));
}

/// What a run of round-robin delegations leaves, and whom the next one chooses.
proof fn turns_move_on(st: NodeState, times: Seq<u64>, now: u64)
    requires
        turn_takers(st, now).len() > 0,
        st.round_robin + times.len() <= usize::MAX,
        forall|k: int|
            0 <= k < times.len() ==> live_rows(st.peers, #[trigger] times[k]) == live_rows(
                st.peers,
                now,
            ),
    ensures
        after_turns(st, times).round_robin == st.round_robin + times.len(),
        after_turns(st, times).trust == st.trust,
        live_rows(after_turns(st, times).peers, now) == live_rows(st.peers, now),
        chosen(after_turns(st, times), DelegationStrategy::RoundRobin, now) == Ok::<
            Seq<char>,
            Seq<char>,
        >(
            turn_takers(st, now)[((st.round_robin + times.len()) % turn_takers(
                st,
                now,
            ).len() as int)],
        ),
    decreases times.len(),
{
    let n = turn_takers(st, now).len() as int;
    let a = st.round_robin + times.len();
    assert(0 <= a % n < n) by (nonlinear_arith)
        requires
            n > 0,
    ;
    if times.len() > 0 {
        let head = times.drop_last();
        let last = times[times.len() - 1];
        assert(last == times.last());
        assert(live_rows(st.peers, last) == live_rows(st.peers, now));
        assert forall|k: int| 0 <= k < head.len() implies live_rows(st.peers, #[trigger] head[k])
            == live_rows(st.peers, last) by {
            assert(times[k] == head[k]);
        }
        turns_move_on(st, head, last);
        eviction_hides_nothing(st.peers, now);
    }
}

/// Round robin takes turns. While the live peers stay as they are, delegations in
/// a row go round those of them that take turns: each goes to the next, as many as
/// there are peers go to different ones, and after that the first comes again.
pub proof fn round_robin_takes_turns(st: NodeState, times: Seq<u64>, now: u64)
    requires
        distinct_keys(st.peers),
        turn_takers(st, now).len() > 0,
        st.round_robin + times.len() <= usize::MAX + 1,
        forall|k: int|
            0 <= k < times.len() ==> live_rows(st.peers, #[trigger] times[k]) == live_rows(
                st.peers,
                now,
            ),
    ensures
        forall|k: int|
            0 <= k < times.len() ==> #[trigger] turn(st, times, k) == Ok::<Seq<char>, Seq<char>>(
                turn_takers(st, now)[(st.round_robin + k) % turn_takers(st, now).len() as int],
            ),
        forall|j: int, k: int|
            0 <= j < k < times.len() && k - j < turn_takers(st, now).len() ==> #[trigger] turn(
                st,
                times,
                j,
            ) != #[trigger] turn(st, times, k),
        forall|j: int, k: int|
            0 <= j < times.len() && 0 <= k < times.len() && k - j == turn_takers(st, now).len()
                ==> #[trigger] turn(st, times, j) == #[trigger] turn(st, times, k),
{
    let takers = turn_takers(st, now);
    let n = takers.len() as int;
    live_rows_keep_keys_distinct(st.peers, now);
    tier_has_no_repeats(
        live_rows(st.peers, now),
        best_rank(live_rows(st.peers, now)),
        st.trust,
    );
    assert forall|k: int| 0 <= k < times.len() implies #[trigger] turn(st, times, k) == Ok::<
        Seq<char>,
        Seq<char>,
    >(takers[(st.round_robin + k) % n]) by {
        let head = times.take(k);
        assert(live_rows(st.peers, times[k]) == live_rows(st.peers, now));
        assert forall|i: int| 0 <= i < head.len() implies live_rows(st.peers, #[trigger] head[i])
            == live_rows(st.peers, times[k]) by {
            assert(head[i] == times[i]);
        }
        turns_move_on(st, head, times[k]);
    }
    assert forall|j: int, k: int| 0 <= j < k < times.len() && k - j < n implies #[trigger] turn(
        st,
        times,
        j,
    ) != #[trigger] turn(st, times, k) by {
        let a = st.round_robin + k;
        let b = st.round_robin + j;
        if a % n == b % n {
            assert((a - b) % n == 0) by {
                vstd::arithmetic::div_mod::lemma_sub_mod_noop(a, b, n);
                vstd::arithmetic::div_mod::lemma_small_mod(0, n as nat);
            }
            vstd::arithmetic::div_mod::lemma_small_mod((a - b) as nat, n as nat);
        }
        vstd::arithmetic::div_mod::lemma_mod_bound(a, n);
        vstd::arithmetic::div_mod::lemma_mod_bound(b, n);
        assert(takers[a % n] != takers[b % n]);
    }
    assert forall|j: int, k: int|
        0 <= j < times.len() && 0 <= k < times.len() && k - j == n implies #[trigger] turn(
        st,
        times,
        j,
    ) == #[trigger] turn(st, times, k) by {
        vstd::arithmetic::div_mod::lemma_mod_add_multiples_vanish(st.round_robin + j, n);
        assert(st.round_robin + k == n + (st.round_robin + j));
    }
}

/// A broadcast goes to every live peer that is trusted, for its capability where
/// it names one, and to no other.
pub proof fn broadcast_reaches_all_trusted(
    rows: PeerRows,
    trust: TrustView,
    capability: Option<Seq<char>>,
    id: Seq<char>,
)
    ensures
        trusted_keys(rows, trust, capability).contains(id) <==> counts_for(trust, id, capability)
            && has_key(rows, id),
    decreases rows.len(),
{
    if rows.len() > 0 {
        let head = rows.drop_last();
        let before = trusted_keys(head, trust, capability);
        broadcast_reaches_all_trusted(head, trust, capability, id);
        assert forall|x: Seq<char>| before.push(x).contains(id) <==> before.contains(id) || x
            == id by {
            if before.contains(id) {
                let k = choose|k: int| 0 <= k < before.len() && before[k] == id;
                assert(before.push(x)[k] == id);
            }
            if x == id {
                assert(before.push(x)[before.len() as int] == id);
            }
        }
        if has_key(rows, id) {
            let i = choose|i: int| 0 <= i < rows.len() && (#[trigger] rows[i]).0 == id;
            if i < head.len() {
                assert(head[i] == rows[i]);
            }
        }
        if has_key(head, id) {
            let i = choose|i: int| 0 <= i < head.len() && (#[trigger] head[i]).0 == id;
            assert(rows[i] == head[i]);
        }
        assert(rows[rows.len() - 1] == rows.last());
    }
}

/// All subtasks of a broadcast wait for one limit: before it, a subtask without a
/// response stays open; from it on none is open, and one that was never answered
/// has timed out. A result that is there stays.
pub proof fn a_broadcast_ends_at_its_limit(
    request: DelegationRequest,
    slot: SlotView,
    elapsed_ms: u64,
    limit_secs: u64,
    received: Seq<TaskView>,
)
    ensures
        over(elapsed_ms, limit_secs) ==> collected_slot(
            request,
            slot,
            elapsed_ms,
            limit_secs,
            received,
        ).result is Some,
        slot.result is None && first_task(received, slot.subtask_id) is None ==> collected_slot(
            request,
            slot,
            elapsed_ms,
            limit_secs,
            received,
        ).result == if over(elapsed_ms, limit_secs) {
            Some(
                failed_result(
                    request,
                    slot.peer_id,
                    slot.subtask_id,
                    "delegation timed out"@,
                ),
            )
        } else {
            None
        },
        slot.result is Some ==> collected_slot(request, slot, elapsed_ms, limit_secs, received)
            == slot,
{
}

/// What a step of collecting makes of the slots of a broadcast.
pub open spec fn collected_all(
    request: DelegationRequest,
    slots: Seq<SlotView>,
    elapsed_ms: u64,
    limit_secs: u64,
    received: Seq<TaskView>,
) -> Seq<SlotView> {
    Seq::new(
        slots.len(),
        |i: int| collected_slot(request, slots[i], elapsed_ms, limit_secs, received),
    )
}

/// The slots of a broadcast after polls that each took some time and brought some
/// tasks.
pub open spec fn collected_over(
    request: DelegationRequest,
    slots: Seq<SlotView>,
    limit_secs: u64,
    polls: Seq<(u64, Seq<TaskView>)>,
) -> Seq<SlotView>
    decreases polls.len(),
{
    if polls.len() == 0 {
        slots
    } else {
        collected_all(
            request,
            collected_over(request, slots, limit_secs, polls.drop_last()),
            polls.last().0,
            limit_secs,
            polls.last().1,
        )
    }
}

/// A broadcast that nobody answers: however many polls there are before the limit,
/// every subtask stays open until then, and the first poll at the limit ends them
/// all as timed out.
pub proof fn a_broadcast_without_answers_times_out(
    request: DelegationRequest,
    slots: Seq<SlotView>,
    limit_secs: u64,
    polls: Seq<(u64, Seq<TaskView>)>,
    end: u64,
)
    requires
        forall|i: int| 0 <= i < slots.len() ==> (#[trigger] slots[i]).result is None,
        forall|k: int| 0 <= k < polls.len() ==> !over((#[trigger] polls[k]).0, limit_secs),
        forall|k: int, i: int|
            0 <= k < polls.len() && 0 <= i < slots.len() ==> first_task(
                (#[trigger] polls[k]).1,
                (#[trigger] slots[i]).subtask_id,
            ) is None,
        over(end, limit_secs),
    ensures
        collected_over(request, slots, limit_secs, polls) == slots,
        forall|i: int|
            0 <= i < slots.len() ==> (#[trigger] collected_over(
                request,
                slots,
                limit_secs,
                polls.push((end, seq![])),
            )[i]).result == Some(
                failed_result(
                    request,
                    slots[i].peer_id,
                    slots[i].subtask_id,
                    "delegation timed out"@,
                ),
            ),
    decreases polls.len(),
{
    if polls.len() > 0 {
        let head = polls.drop_last();
        assert forall|k: int| 0 <= k < head.len() implies !over((#[trigger] head[k]).0, limit_secs) by {
            assert(polls[k] == head[k]);
        }
        assert forall|k: int, i: int| 0 <= k < head.len() && 0 <= i < slots.len() implies first_task(
            (#[trigger] head[k]).1,
            (#[trigger] slots[i]).subtask_id,
        ) is None by {
            assert(polls[k] == head[k]);
        }
        a_broadcast_without_answers_times_out(request, slots, limit_secs, head, end);
        let last = polls[polls.len() - 1];
        assert(last == polls.last());
        let after = collected_over(request, slots, limit_secs, polls);
        assert forall|i: int| 0 <= i < slots.len() implies after[i] == slots[i] by {
            assert(first_task(last.1, slots[i].subtask_id) is None);
        }
        assert(after =~= slots);
    }
    let all = polls.push((end, seq![]));
    assert(all.drop_last() =~= polls);
    assert(all.last() == (end, Seq::<TaskView>::empty()));
}

// ---- receiving ----

/// Vetting looks at tasks without changing whom the node trusts or what it asks
/// in payment, and every task that it accepts was let in.
pub proof fn accepted_tasks_were_let_in(st: NodeState, p: PollState)
    ensures
        vetting(st, p).0.trust == st.trust,
        vetting(st, p).0.payment == st.payment,
        forall|task: TaskView| #[trigger]
            vetting(st, p).1.accepted.contains(task) ==> p.accepted.contains(task) || (
            p.found.contains(task) && let_in(st, task.from)),
    decreases p.found.len(),
{
    if p.found.len() > 0 {
        let task = p.found[0];
        let rest = PollState { found: p.found.drop_first(), ..p };
        let seen = after_admission(st, task.from);
        assert(p.found.contains(task));
        assert forall|t: TaskView| #[trigger] rest.found.contains(t) implies p.found.contains(
            t,
        ) by {
            let k = choose|k: int| 0 <= k < rest.found.len() && rest.found[k] == t;
            assert(p.found[k + 1] == t);
        }
        if !let_in(st, task.from) {
            accepted_tasks_were_let_in(seen, rest);
        } else {
            match payment_check(seen, task) {
                CheckView::Accept => {
                    let more = PollState { accepted: p.accepted.push(task), ..rest };
                    accepted_tasks_were_let_in(after_check(seen, task), more);
                    assert forall|t: TaskView| #[trigger] more.accepted.contains(t) implies t == task
                        || p.accepted.contains(t) by {
                        let k = choose|k: int|
                            0 <= k < more.accepted.len() && more.accepted[k] == t;
                        if k < p.accepted.len() {
                            assert(p.accepted[k] == t);
                        }
                    }
                },
                CheckView::Reject => accepted_tasks_were_let_in(seen, rest),
                CheckView::LookUp(_) => {},
            }
        }
    }
}

/// Where the trust list is enforced, no task of a stranger is accepted.
pub proof fn enforcement_keeps_strangers_out(st: NodeState, p: PollState, task: TaskView)
    requires
        st.trust.mode == TrustMode::Enforce,
        vetting(st, p).1.accepted.contains(task),
        !p.accepted.contains(task),
    ensures
        trusts(st.trust, task.from),
{
    accepted_tasks_were_let_in(st, p);
}

/// Where the trust list is off or only reports, and nothing is asked in payment,
/// every task is accepted, in order.
pub proof fn without_conditions_all_are_accepted(st: NodeState, p: PollState)
    requires
        st.trust.mode != TrustMode::Enforce,
        !asks_payment(st),
    ensures
        vetting(st, p).2 == Asked::Done(p.accepted + p.found),
    decreases p.found.len(),
{
    if p.found.len() == 0 {
        assert(p.accepted + p.found =~= p.accepted);
    } else {
        let task = p.found[0];
        let rest = PollState { found: p.found.drop_first(), ..p };
        let seen = after_admission(st, task.from);
        let more = PollState { accepted: p.accepted.push(task), ..rest };
        without_conditions_all_are_accepted(seen, more);
        assert(more.accepted + more.found =~= p.accepted + p.found);
    }
}

/// Every accepted task shows a payment that is used up, and no two show the
/// same.
pub open spec fn paid_up(st: NodeState, accepted: Seq<TaskView>) -> bool {
    &&& forall|i: int|
        0 <= i < accepted.len() ==> (#[trigger] accepted[i]).payment_tx is Some
            && st.seen_payments.contains(accepted[i].payment_tx->0)
    &&& forall|i: int, j: int|
        0 <= i < accepted.len() && 0 <= j < accepted.len() && i != j ==> (
        #[trigger] accepted[i]).payment_tx != (#[trigger] accepted[j]).payment_tx
}

/// Where payment is asked for and claims are believed, a payment buys one task:
/// all accepted tasks show different payments, none of which was used before.
pub proof fn a_payment_buys_one_task(st: NodeState, p: PollState)
    requires
        asks_payment(st),
        paid_up(st, p.accepted),
    ensures
        paid_up(vetting(st, p).0, vetting(st, p).1.accepted),
    decreases p.found.len(),
{
    if p.found.len() > 0 {
        let task = p.found[0];
        let rest = PollState { found: p.found.drop_first(), ..p };
        let seen = after_admission(st, task.from);
        if !let_in(st, task.from) {
            a_payment_buys_one_task(seen, rest);
        } else {
            match payment_check(seen, task) {
                CheckView::Accept => {
                    let tx = task.payment_tx->0;
                    let after = after_check(seen, task);
                    let more = PollState { accepted: p.accepted.push(task), ..rest };
                    assert(!st.seen_payments.contains(tx));
                    assert(after.seen_payments == st.seen_payments.push(tx));
                    assert(after.seen_payments[st.seen_payments.len() as int] == tx);
                    assert forall|i: int| 0 <= i < more.accepted.len() implies (
                    #[trigger] more.accepted[i]).payment_tx is Some && after.seen_payments.contains(
                        more.accepted[i].payment_tx->0,
                    ) by {
                        if i < p.accepted.len() {
                            assert(more.accepted[i] == p.accepted[i]);
                            let x = p.accepted[i].payment_tx->0;
                            let k = choose|k: int|
                                0 <= k < st.seen_payments.len() && st.seen_payments[k] == x;
                            assert(after.seen_payments[k] == x);
                        }
                    }
                    assert forall|i: int, j: int|
                        0 <= i < more.accepted.len() && 0 <= j < more.accepted.len() && i
                            != j implies (#[trigger] more.accepted[i]).payment_tx != (
                    #[trigger] more.accepted[j]).payment_tx by {
                        if i < p.accepted.len() && j < p.accepted.len() {
                            assert(p.accepted[i].payment_tx != p.accepted[j].payment_tx);
                        } else if i < p.accepted.len() {
                            assert(st.seen_payments.contains(p.accepted[i].payment_tx->0));
                        } else {
                            assert(st.seen_payments.contains(p.accepted[j].payment_tx->0));
                        }
                    }
                    a_payment_buys_one_task(after, more);
                },
                CheckView::Reject => a_payment_buys_one_task(seen, rest),
                CheckView::LookUp(_) => {},
            }
        }
    }
}

/// What was moved to storage is found again: a receiver with storage asks for
/// the content under the identifier that the slim task carries.
pub proof fn offloaded_content_is_fetched(st: NodeState, task: TaskView, cid: Seq<char>)
    requires
        st.offload is Some,
    ensures
        extracted(st, Some(EnvelopeView::Task(slimmed(task, cid)))) == ExtractView::Fetch(cid),
{
}

// ---- presence ----

/// An agent never takes in its own announcement, nor one that does not verify.
pub proof fn own_and_unverified_presence_is_ignored(st: NodeState, p: ReceivedPresence, now: u64)
    requires
        p.announcement@.agent_id == st.card.public_key || !p.verified,
    ensures
        after_presence(st, p, now) == st,
{
}

/// A node with an identity reports its load to every peer on its trust list that
/// has a key for sealed messages, and to no other.
pub proof fn every_friend_with_a_key_gets_the_load(
    entries: Seq<TrustEntryView>,
    load: LoadStatus,
    report: ReportView,
)
    ensures
        reports_to(entries, load).contains(report) <==> report.load == load && exists|i: int|
            0 <= i < entries.len() && (#[trigger] entries[i]).pubkey == report.recipient
                && entries[i].encryption_pubkey == Some(report.encryption_pubkey),
    decreases entries.len(),
{
    if entries.len() > 0 {
        let head = entries.drop_last();
        let last = entries.last();
        let before = reports_to(head, load);
        let all = reports_to(entries, load);
        every_friend_with_a_key_gets_the_load(head, load, report);
        assert(entries[entries.len() - 1] == last);
        if before.contains(report) {
            let k = choose|k: int| 0 <= k < before.len() && before[k] == report;
            assert(all[k] == report);
            let i = choose|i: int|
                0 <= i < head.len() && (#[trigger] head[i]).pubkey == report.recipient
                    && head[i].encryption_pubkey == Some(report.encryption_pubkey);
            assert(entries[i] == head[i]);
        }
        if all.contains(report) && !before.contains(report) {
            let k = choose|k: int| 0 <= k < all.len() && all[k] == report;
            assert(k >= before.len());
        }
        if report.load == load && exists|i: int|
            0 <= i < entries.len() && (#[trigger] entries[i]).pubkey == report.recipient
                && entries[i].encryption_pubkey == Some(report.encryption_pubkey) {
            let i = choose|i: int|
                0 <= i < entries.len() && (#[trigger] entries[i]).pubkey == report.recipient
                    && entries[i].encryption_pubkey == Some(report.encryption_pubkey);
            if i < head.len() {
                assert(head[i] == entries[i]);
            } else {
                assert(all[all.len() - 1] == report);
            }
        }
    }
}

/// The load that a trusted peer reports arrives: where two nodes with identities
/// have each other's keys, the reports of the one hold one for the other, the other
/// can open the report that is for it, and once it has taken in the announcement
/// with it, it knows the load.
pub proof fn the_load_arrives(
    sender: NodeState,
    receiver: NodeState,
    p: ReceivedPresence,
    entry: int,
    key: Seq<char>,
    now: u64,
)
    requires
        sender.identity is Some,
        receiver.identity is Some,
        0 <= entry < sender.trust.entries.len(),
        sender.trust.entries[entry].pubkey == receiver.card.public_key,
        sender.trust.entries[entry].encryption_pubkey is Some,
        sealing_key(receiver.trust.entries, sender.card.public_key) == Some(key),
        distinct_keys(receiver.peers),
        p.announcement@.agent_id == sender.card.public_key,
        sender.card.public_key != receiver.card.public_key,
        p.verified,
        p.load == Some(load_of(sender)),
    ensures
        own_reports(sender).contains(
            ReportView {
                recipient: receiver.card.public_key,
                encryption_pubkey: sender.trust.entries[entry].encryption_pubkey->0,
                load: load_of(sender),
            },
        ),
        openable(
            receiver,
            sender.card.public_key,
            Seq::new(own_reports(sender).len(), |i: int| own_reports(sender)[i].recipient),
        ) is Some,
        lookup(after_presence(receiver, p, now).peers, sender.card.public_key) is Some,
        lookup(after_presence(receiver, p, now).peers, sender.card.public_key)->0.load == Some(
            load_of(sender),
        ),
{
    let report = ReportView {
        recipient: receiver.card.public_key,
        encryption_pubkey: sender.trust.entries[entry].encryption_pubkey->0,
        load: load_of(sender),
    };
    every_friend_with_a_key_gets_the_load(sender.trust.entries, load_of(sender), report);
    let reports = own_reports(sender);
    let recipients = Seq::new(reports.len(), |i: int| reports[i].recipient);
    let k = choose|k: int| 0 <= k < reports.len() && reports[k] == report;
    assert(recipients[k] == receiver.card.public_key);
    report_is_found(recipients, receiver.card.public_key, k);
    put_then_look(receiver.peers, p.announcement@.agent_id, presence_entry(p, now));
}

proof fn report_is_found(recipients: Seq<Seq<char>>, own: Seq<char>, k: int)
    requires
        0 <= k < recipients.len(),
        recipients[k] == own,
    ensures
        report_place(recipients, own) <= k,
    decreases recipients.len(),
{
    if recipients[0] != own {
        assert(recipients.drop_first()[k - 1] == own);
        report_is_found(recipients.drop_first(), own, k - 1);
    }
}

/// Announcements never add an entry for the agent itself.
pub proof fn never_its_own_peer(st: NodeState, batch: Seq<ReceivedPresence>, now: u64)
    requires
        distinct_keys(st.peers),
        !has_key(st.peers, st.card.public_key),
    ensures
        !has_key(after_presences(st, batch, now).peers, st.card.public_key),
        distinct_keys(after_presences(st, batch, now).peers),
        after_presences(st, batch, now).card == st.card,
    decreases batch.len(),
{
    if batch.len() > 0 {
        let before = after_presences(st, batch.drop_last(), now);
        never_its_own_peer(st, batch.drop_last(), now);
        let p = batch.last();
        if acceptable(before.card.public_key, p) {
            let entry = presence_entry(p, now);
            put_then_look(before.peers, p.announcement@.agent_id, entry);
            assert(lookup(
                with_row(before.peers, p.announcement@.agent_id, entry),
                st.card.public_key,
            ) == lookup(before.peers, st.card.public_key));
        }
    }
}

/// Merged cards: one per key, and the last card of a key is the one that stays,
/// so that the registry's version, which comes last, wins.
pub proof fn last_card_wins(list: Seq<CardView>, i: int)
    requires
        0 <= i < list.len(),
        forall|j: int| i < j < list.len() ==> (#[trigger] list[j]).public_key
            != list[i].public_key,
    ensures
        distinct_keys(cards_by_key(list)),
        lookup(cards_by_key(list), list[i].public_key) == Some(list[i]),
    decreases list.len(),
{
    let head = list.drop_last();
    keys_stay_distinct(head);
    put_then_look(cards_by_key(head), list.last().public_key, list.last());
    if i < list.len() - 1 {
        assert(head[i] == list[i]);
        assert forall|j: int| i < j < head.len() implies (#[trigger] head[j]).public_key
            != head[i].public_key by {
            assert(list[j] == head[j]);
        }
        last_card_wins(head, i);
        assert(list[list.len() - 1].public_key != list[i].public_key);
    }
}

proof fn keys_stay_distinct(list: Seq<CardView>)
    ensures
        distinct_keys(cards_by_key(list)),
    decreases list.len(),
{
    if list.len() > 0 {
        keys_stay_distinct(list.drop_last());
        put_then_look(
            cards_by_key(list.drop_last()),
            list.last().public_key,
            list.last(),
        );
    }
}

// ---- delegation, by what peers report and whom the node trusts ----

/// Whether a peer is up to date and trusted: for a capability, where one is named,
/// which it then also has to offer. Where the trust list is off, everybody is
/// trusted; otherwise those on it are, for the capabilities that their entry names
/// or for all where it names none.
pub open spec fn may_be_asked(
    st: NodeState,
    capability: Option<Seq<char>>,
    now: u64,
    row: (Seq<char>, PeerView),
) -> bool {
    &&& st.peers.contains(row)
    &&& row.1.ttl_secs > 0 && now <= row.1.last_seen + row.1.ttl_secs
    &&& capability is Some ==> row.1.capabilities.contains(capability->0)
    &&& st.trust.mode == TrustMode::Off || exists|e: int|
        0 <= e < st.trust.entries.len() && (#[trigger] st.trust.entries[e]).pubkey == row.0 && (
        capability is None || st.trust.entries[e].capabilities.len() == 0
            || st.trust.entries[e].capabilities.contains(capability->0))
}

/// The capability that a strategy asks for, if any.
pub open spec fn wanted(strategy: DelegationStrategy) -> Option<Seq<char>> {
    match strategy {
        DelegationStrategy::CapabilityMatch { capability } => Some(capability@),
        _ => None,
    }
}

/// Whether a peer reports the given load.
pub open spec fn reports(row: (Seq<char>, PeerView), bucket: LoadBucket) -> bool {
    row.1.load is Some && row.1.load->0.bucket == bucket
}

/// The live peers among which a strategy looks.
spec fn looked_among(st: NodeState, strategy: DelegationStrategy, now: u64) -> PeerRows {
    match strategy {
        DelegationStrategy::CapabilityMatch { capability } => capable_rows(
            st.peers,
            capability@,
            now,
        ),
        _ => live_rows(st.peers, now),
    }
}

proof fn candidates_are(st: NodeState, strategy: DelegationStrategy, now: u64)
    ensures
        forall|row: (Seq<char>, PeerView)|
            #![trigger may_be_asked(st, wanted(strategy), now, row)]
            #![trigger looked_among(st, strategy, now).contains(row)]
            may_be_asked(st, wanted(strategy), now, row) <==> looked_among(
                st,
                strategy,
                now,
            ).contains(row) && counts_for(st.trust, row.0, wanted(strategy)),
{
    filtered_members(st.peers, |row: (Seq<char>, PeerView)| !expired_at(row.1, now));
    if let DelegationStrategy::CapabilityMatch { capability } = strategy {
        filtered_members(
            st.peers,
            |row: (Seq<char>, PeerView)|
                !expired_at(row.1, now) && row.1.capabilities.contains(capability@),
        );
    }
}

/// Delegation to one peer goes to one that may be asked, and by the load that peers
/// report: to a full one only where all that may be asked are full, to a busy one
/// only where none of them is free, and to one of unknown load only where none of
/// them is free or busy. It fails exactly where none may be asked.
pub proof fn the_busier_are_asked_later(st: NodeState, strategy: DelegationStrategy, now: u64)
    requires
        !(strategy is RoundRobin),
    ensures
        chosen(st, strategy, now) is Err <==> forall|row: (Seq<char>, PeerView)|
            !#[trigger] may_be_asked(st, wanted(strategy), now, row),
        chosen(st, strategy, now) is Ok ==> exists|row: (Seq<char>, PeerView)|
            {
                &&& #[trigger] may_be_asked(st, wanted(strategy), now, row)
                &&& row.0 == chosen(st, strategy, now)->Ok_0
                &&& forall|other: (Seq<char>, PeerView)| #[trigger]
                    may_be_asked(st, wanted(strategy), now, other) ==> {
                        &&& reports(row, LoadBucket::Full) ==> reports(other, LoadBucket::Full)
                        &&& reports(row, LoadBucket::Busy) ==> !reports(other, LoadBucket::Free)
                        &&& row.1.load is None ==> !reports(other, LoadBucket::Free) && !reports(
                            other,
                            LoadBucket::Busy,
                        )
                    }
            },
{
    let cap = wanted(strategy);
    let rows = looked_among(st, strategy, now);
    candidates_are(st, strategy, now);
    first_by_rank_is_least_busy(rows, st.trust, cap);
    match first_trusted(by_rank(rows), st.trust, cap) {
        Some(id) => {
            let row = choose|row: (Seq<char>, PeerView)| #[trigger]
                rows.contains(row) && row.0 == id && forall|other: (Seq<char>, PeerView)| #[trigger]
                    rows.contains(other) && counts_for(st.trust, other.0, cap) ==> rank_of(
                        row.1.load,
                    ) <= rank_of(other.1.load);
            assert(rows.contains(row) && counts_for(st.trust, row.0, cap));
            assert(may_be_asked(st, cap, now, row));
            assert forall|other: (Seq<char>, PeerView)| #[trigger]
                may_be_asked(st, cap, now, other) implies {
                &&& reports(row, LoadBucket::Full) ==> reports(other, LoadBucket::Full)
                &&& reports(row, LoadBucket::Busy) ==> !reports(other, LoadBucket::Free)
                &&& row.1.load is None ==> !reports(other, LoadBucket::Free) && !reports(
                    other,
                    LoadBucket::Busy,
                )
            } by {
                assert(rows.contains(other) && counts_for(st.trust, other.0, cap));
            }
        },
        None => {
            assert forall|row: (Seq<char>, PeerView)| !#[trigger] may_be_asked(
                st,
                cap,
                now,
                row,
            ) by {
                if may_be_asked(st, cap, now, row) {
                    assert(rows.contains(row) && counts_for(st.trust, row.0, cap));
                }
            }
        },
    }
}

/// Round robin goes only to trusted peers that are among the least busy of all live
/// ones, by the load that they report: to a full one only where all are full, to a
/// busy one only where none is free, and to one of unknown load only where none is
/// free or busy.
pub proof fn round_robin_asks_the_least_busy(st: NodeState, now: u64)
    requires
        chosen(st, DelegationStrategy::RoundRobin, now) is Ok,
    ensures
        exists|row: (Seq<char>, PeerView)|
            {
                &&& #[trigger] may_be_asked(st, None, now, row)
                &&& row.0 == chosen(st, DelegationStrategy::RoundRobin, now)->Ok_0
                &&& forall|other: (Seq<char>, PeerView)| #[trigger]
                    st.peers.contains(other) && other.1.ttl_secs > 0 && now <= other.1.last_seen
                        + other.1.ttl_secs ==> {
                        &&& reports(row, LoadBucket::Full) ==> reports(other, LoadBucket::Full)
                        &&& reports(row, LoadBucket::Busy) ==> !reports(other, LoadBucket::Free)
                        &&& row.1.load is None ==> !reports(other, LoadBucket::Free) && !reports(
                            other,
                            LoadBucket::Busy,
                        )
                    }
            },
{
    let live = live_rows(st.peers, now);
    let id = chosen(st, DelegationStrategy::RoundRobin, now)->Ok_0;
    let rank = best_rank(live);
    round_robin_stays_in_the_best_tier(st, now);
    candidates_are(st, DelegationStrategy::RoundRobin, now);
    filtered_members(st.peers, |row: (Seq<char>, PeerView)| !expired_at(row.1, now));
    let i = choose|i: int|
        0 <= i < live.len() && (#[trigger] live[i]).0 == id && rank_of(live[i].1.load) == rank;
    let row = live[i];
    assert(live.contains(row) && counts_for(st.trust, row.0, None));
    assert(may_be_asked(st, None, now, row));
    assert forall|other: (Seq<char>, PeerView)| #[trigger]
        st.peers.contains(other) && other.1.ttl_secs > 0 && now <= other.1.last_seen
            + other.1.ttl_secs implies {
        &&& reports(row, LoadBucket::Full) ==> reports(other, LoadBucket::Full)
        &&& reports(row, LoadBucket::Busy) ==> !reports(other, LoadBucket::Free)
        &&& row.1.load is None ==> !reports(other, LoadBucket::Free) && !reports(
            other,
            LoadBucket::Busy,
        )
    } by {
        assert(live.contains(other));
        let k = choose|k: int| 0 <= k < live.len() && live[k] == other;
        assert(rank <= rank_of(live[k].1.load));
    }
}

/// Round robin fails only where every trusted live peer is busier than some live
/// peer, by the load that they report, or there is no trusted one.
pub proof fn round_robin_fails_only_for_want_of_trust(st: NodeState, now: u64)
    requires
        chosen(st, DelegationStrategy::RoundRobin, now) is Err,
    ensures
        forall|row: (Seq<char>, PeerView)| #[trigger]
            may_be_asked(st, None, now, row) ==> exists|other: (Seq<char>, PeerView)| #[trigger]
                st.peers.contains(other) && other.1.ttl_secs > 0 && now <= other.1.last_seen
                    + other.1.ttl_secs && ((reports(other, LoadBucket::Free) && !reports(
                    row,
                    LoadBucket::Free,
                )) || (reports(other, LoadBucket::Busy) && (row.1.load is None || reports(
                    row,
                    LoadBucket::Full,
                ))) || (other.1.load is None && reports(row, LoadBucket::Full))),
{
    let live = live_rows(st.peers, now);
    let rank = best_rank(live);
    candidates_are(st, DelegationStrategy::RoundRobin, now);
    filtered_members(st.peers, |row: (Seq<char>, PeerView)| !expired_at(row.1, now));
    assert forall|row: (Seq<char>, PeerView)| #[trigger] may_be_asked(
        st,
        None,
        now,
        row,
    ) implies exists|other: (Seq<char>, PeerView)| #[trigger]
        st.peers.contains(other) && other.1.ttl_secs > 0 && now <= other.1.last_seen
            + other.1.ttl_secs && ((reports(other, LoadBucket::Free) && !reports(
            row,
            LoadBucket::Free,
        )) || (reports(other, LoadBucket::Busy) && (row.1.load is None || reports(
            row,
            LoadBucket::Full,
        ))) || (other.1.load is None && reports(row, LoadBucket::Full))) by {
        assert(live.contains(row) && counts_for(st.trust, row.0, None));
        let i = choose|i: int| 0 <= i < live.len() && live[i] == row;
        best_rank_is_lowest(live);
        tier_is_exact(live, rank, st.trust, row.0);
        assert(rank <= rank_of(live[i].1.load));
        if rank_of(row.1.load) == rank {
            assert(live[i].0 == row.0);
            assert(has_peer(live, row.0, rank));
            assert(tier(live, rank, st.trust).contains(row.0));
        }
        let k = choose|k: int|
            0 <= k < live.len() && best_rank(live) == rank_of((#[trigger] live[k]).1.load);
        assert(live.contains(live[k]));
        assert(st.peers.contains(live[k]));
    }
}

/// A broadcast goes to exactly the peers that may be asked, whatever load they
/// report, and to none of them twice: by a capability match, to those that offer the
/// capability and are trusted for it, and by any other strategy to all that are
/// trusted.
pub proof fn a_broadcast_goes_to_all_that_may_be_asked(
    st: NodeState,
    strategy: DelegationStrategy,
    now: u64,
    id: Seq<char>,
)
    requires
        distinct_keys(st.peers),
    ensures
        broadcast_choice(st, strategy, now).contains(id) <==> exists|row: (Seq<char>, PeerView)|
            #[trigger] may_be_asked(st, wanted(strategy), now, row) && row.0 == id,
        broadcast_choice(st, strategy, now).no_duplicates(),
{
    let cap = wanted(strategy);
    let rows = looked_among(st, strategy, now);
    candidates_are(st, strategy, now);
    broadcast_reaches_all_trusted(rows, st.trust, cap, id);
    if broadcast_choice(st, strategy, now).contains(id) {
        let i = choose|i: int| 0 <= i < rows.len() && (#[trigger] rows[i]).0 == id;
        assert(rows.contains(rows[i]) && counts_for(st.trust, rows[i].0, cap));
        assert(may_be_asked(st, cap, now, rows[i]));
    }
    if exists|row: (Seq<char>, PeerView)| #[trigger] may_be_asked(st, cap, now, row) && row.0 == id {
        let row = choose|row: (Seq<char>, PeerView)| #[trigger]
            may_be_asked(st, cap, now, row) && row.0 == id;
        assert(rows.contains(row) && counts_for(st.trust, row.0, cap));
        let i = choose|i: int| 0 <= i < rows.len() && rows[i] == row;
        assert(rows[i].0 == id);
    }
    match strategy {
        DelegationStrategy::CapabilityMatch { capability } => filter_keeps_keys_distinct(
            st.peers,
            |row: (Seq<char>, PeerView)|
                !expired_at(row.1, now) && row.1.capabilities.contains(capability@),
        ),
        _ => filter_keeps_keys_distinct(
            st.peers,
            |row: (Seq<char>, PeerView)| !expired_at(row.1, now),
        ),
    }
    trusted_keys_have_no_repeats(rows, st.trust, cap);
}

proof fn filter_keeps_keys_distinct(
    rows: PeerRows,
    keep: spec_fn((Seq<char>, PeerView)) -> bool,
)
    requires
        distinct_keys(rows),
    ensures
        distinct_keys(rows.filter(keep)),
    decreases rows.len(),
{
    reveal(Seq::filter);
    if rows.len() > 0 {
        let head = rows.drop_last();
        let last = rows.last();
        assert(rows[rows.len() - 1] == last);
        assert forall|i: int, j: int|
            0 <= i < head.len() && 0 <= j < head.len() && (#[trigger] head[i]).0 == (
            #[trigger] head[j]).0 implies i == j by {
            assert(rows[i].0 == rows[j].0);
        }
        filter_keeps_keys_distinct(head, keep);
        filtered_members(head, keep);
        let kept = head.filter(keep);
        let all = rows.filter(keep);
        assert forall|i: int| 0 <= i < kept.len() implies (#[trigger] kept[i]).0 != last.0 by {
            assert(kept.contains(kept[i]));
            let h = choose|h: int| 0 <= h < head.len() && head[h] == kept[i];
            assert(rows[h].0 == kept[i].0);
        }
        assert forall|i: int, j: int|
            0 <= i < all.len() && 0 <= j < all.len() && (#[trigger] all[i]).0 == (
            #[trigger] all[j]).0 implies i == j by {
            if i < kept.len() && j < kept.len() {
                assert(kept[i].0 == kept[j].0);
            } else if i < kept.len() {
                assert(kept[i].0 == all[i].0);
            } else if j < kept.len() {
                assert(kept[j].0 == all[j].0);
            }
        }
    }
}

proof fn trusted_keys_have_no_repeats(rows: PeerRows, trust: TrustView, cap: Option<Seq<char>>)
    requires
        distinct_keys(rows),
    ensures
        trusted_keys(rows, trust, cap).no_duplicates(),
    decreases rows.len(),
{
    if rows.len() > 0 {
        let head = rows.drop_last();
        let last = rows.last();
        assert(rows[rows.len() - 1] == last);
        assert forall|i: int, j: int|
            0 <= i < head.len() && 0 <= j < head.len() && (#[trigger] head[i]).0 == (
            #[trigger] head[j]).0 implies i == j by {
            assert(rows[i].0 == rows[j].0);
        }
        trusted_keys_have_no_repeats(head, trust, cap);
        broadcast_reaches_all_trusted(head, trust, cap, last.0);
        assert(!trusted_keys(head, trust, cap).contains(last.0)) by {
            if has_key(head, last.0) {
                let i = choose|i: int| 0 <= i < head.len() && (#[trigger] head[i]).0 == last.0;
                assert(rows[i].0 == last.0);
            }
        }
    }
}

} // verus!
