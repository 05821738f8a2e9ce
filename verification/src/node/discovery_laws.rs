//! What holds of discovery and presence.

use vstd::prelude::*;
use crate::agent::{A2AEnvelope, AgentCard, CardView};
use crate::load::{bucket_of, LoadBucket};
use crate::metrics::counted;
use crate::node::discovery::{
    accepted_count, after_announcement, after_presence, after_presences, cards_by_key, foreign_cards, not_own,
    openable, own_announcement, report_place, values_of, ReceivedPresence,
};
use crate::node::{active_sessions, load_of, NodeState};
use crate::order::filtered_members;
use crate::session::SessionView;
use crate::table::{distinct_keys, has_key, lookup, place_of, put_then_look};

verus! {

// ---- cards ----

proof fn foreign_cards_join(
    own: Seq<char>,
    before: Seq<Option<A2AEnvelope>>,
    after: Seq<Option<A2AEnvelope>>,
)
    ensures
        foreign_cards(own, before + after) == foreign_cards(own, before) + foreign_cards(own, after),
    decreases after.len(),
{
    if after.len() == 0 {
        assert(before + after =~= before);
        assert(foreign_cards(own, before) + foreign_cards(own, after) =~= foreign_cards(
            own,
            before,
        ));
    } else {
        foreign_cards_join(own, before, after.drop_last());
        assert((before + after).drop_last() =~= before + after.drop_last());
        assert((before + after).last() == after.last());
        assert(foreign_cards(own, before + after) =~= foreign_cards(own, before) + foreign_cards(
            own,
            after,
        ));
    }
}

/// Discovery finds the card of every other agent, in the order in which they came,
/// and nothing else: the agent's own card, other envelopes and bytes that are no
/// envelope are passed over, whatever stands before and after them.
pub proof fn every_foreign_card_is_discovered(
    own: Seq<char>,
    before: Seq<Option<A2AEnvelope>>,
    card: AgentCard,
    other: Option<A2AEnvelope>,
    after: Seq<Option<A2AEnvelope>>,
)
    ensures
        card@.public_key != own ==> foreign_cards(
            own,
            before + seq![Some(A2AEnvelope::AgentCard(card))] + after,
        ) == foreign_cards(own, before) + seq![card@] + foreign_cards(own, after),
        card@.public_key == own ==> foreign_cards(
            own,
            before + seq![Some(A2AEnvelope::AgentCard(card))] + after,
        ) == foreign_cards(own, before) + foreign_cards(own, after),
        other is None || !(other->0 is AgentCard) ==> foreign_cards(
            own,
            before + seq![other] + after,
        ) == foreign_cards(own, before) + foreign_cards(own, after),
{
    let one = seq![Some(A2AEnvelope::AgentCard(card))];
    let two = seq![other];
    let none = Seq::<Option<A2AEnvelope>>::empty();
    let cards = Seq::<CardView>::empty();
    foreign_cards_join(own, before, one);
    foreign_cards_join(own, before + one, after);
    foreign_cards_join(own, before, two);
    foreign_cards_join(own, before + two, after);
    assert(one.drop_last() =~= none);
    assert(two.drop_last() =~= none);
    assert(foreign_cards(own, none) =~= cards);
    if card@.public_key != own {
        assert(foreign_cards(own, one) =~= seq![card@]);
    } else {
        assert(foreign_cards(own, one) =~= cards);
        assert(foreign_cards(own, before) + foreign_cards(own, one) =~= foreign_cards(own, before));
    }
    if other is None || !(other->0 is AgentCard) {
        assert(foreign_cards(own, two) =~= cards);
        assert(foreign_cards(own, before) + foreign_cards(own, two) =~= foreign_cards(own, before));
    }
}

proof fn cards_are_keyed(list: Seq<CardView>)
    ensures
        distinct_keys(cards_by_key(list)),
        forall|i: int|
            0 <= i < cards_by_key(list).len() ==> (#[trigger] cards_by_key(list)[i]).1.public_key
                == cards_by_key(list)[i].0 && list.contains(cards_by_key(list)[i].1),
        forall|i: int|
            0 <= i < list.len() ==> has_key(cards_by_key(list), (#[trigger] list[i]).public_key),
    decreases list.len(),
{
    if list.len() > 0 {
        let head = list.drop_last();
        let last = list.last();
        cards_are_keyed(head);
        let before = cards_by_key(head);
        let after = cards_by_key(list);
        put_then_look(before, last.public_key, last);
        assert(list[list.len() - 1] == last);
        assert forall|i: int| 0 <= i < after.len() implies (#[trigger] after[i]).1.public_key
            == after[i].0 && list.contains(after[i].1) by {
            if i < before.len() && after[i] == before[i] {
                let k = choose|k: int| 0 <= k < head.len() && head[k] == before[i].1;
                assert(list[k] == head[k]);
            }
        }
        assert forall|i: int| 0 <= i < list.len() implies has_key(
            after,
            (#[trigger] list[i]).public_key,
        ) by {
            let key = list[i].public_key;
            assert(lookup(after, last.public_key) == Some(last));
            if key != last.public_key {
                assert(head[i] == list[i]);
                assert(has_key(before, key));
                assert(lookup(after, key) == lookup(before, key));
            }
        }
    }
}

/// What is known of all agents together: one card for every agent that was discovered
/// or is in the registry, and no card twice. Every card that is shown was discovered
/// or is in the registry, and of an agent that the registry has, other than the agent
/// itself, none is shown that is not in the registry.
pub proof fn everybody_is_shown_once(
    own: Seq<char>,
    found: Seq<CardView>,
    registry: Seq<CardView>,
    key: Seq<char>,
)
    ensures
        ({
            let all = found + not_own(own, registry);
            let shown = values_of(cards_by_key(all));
            &&& forall|i: int, j: int|
                0 <= i < shown.len() && 0 <= j < shown.len() && (#[trigger] shown[i]).public_key
                    == (#[trigger] shown[j]).public_key ==> i == j
            &&& forall|i: int|
                0 <= i < shown.len() ==> found.contains(#[trigger] shown[i])
                    || registry.contains(shown[i])
            &&& (exists|k: int| 0 <= k < found.len() && (#[trigger] found[k]).public_key == key)
                ==> exists|i: int| 0 <= i < shown.len() && (#[trigger] shown[i]).public_key == key
            &&& key != own && (exists|k: int|
                0 <= k < registry.len() && (#[trigger] registry[k]).public_key == key)
                ==> exists|i: int|
                0 <= i < shown.len() && (#[trigger] shown[i]).public_key == key
                    && registry.contains(shown[i])
        }),
{
    let kept = not_own(own, registry);
    let all = found + kept;
    let rows = cards_by_key(all);
    let shown = values_of(rows);
    cards_are_keyed(all);
    filtered_members(registry, |card: CardView| card.public_key != own);
    assert forall|i: int, j: int|
        0 <= i < shown.len() && 0 <= j < shown.len() && (#[trigger] shown[i]).public_key == (
        #[trigger] shown[j]).public_key implies i == j by {
        assert(rows[i].0 == rows[j].0);
    }
    assert forall|i: int| 0 <= i < shown.len() implies found.contains(#[trigger] shown[i])
        || registry.contains(shown[i]) by {
        assert(all.contains(rows[i].1));
        let k = choose|k: int| 0 <= k < all.len() && all[k] == rows[i].1;
        if k < found.len() {
            assert(found[k] == shown[i]);
        } else {
            assert(kept[k - found.len()] == shown[i]);
            assert(kept.contains(shown[i]));
        }
    }
    if exists|k: int| 0 <= k < found.len() && (#[trigger] found[k]).public_key == key {
        let k = choose|k: int| 0 <= k < found.len() && (#[trigger] found[k]).public_key == key;
        assert(all[k] == found[k]);
        assert(has_key(rows, all[k].public_key));
        let i = place_of(rows, key);
        assert(rows[i].0 == key);
        assert(shown[i].public_key == key);
    }
    if key != own && exists|k: int|
        0 <= k < registry.len() && (#[trigger] registry[k]).public_key == key {
        let k = choose|k: int|
            0 <= k < registry.len() && (#[trigger] registry[k]).public_key == key;
        assert(registry.contains(registry[k]));
        assert(kept.contains(registry[k]));
        let h = choose|h: int| 0 <= h < kept.len() && kept[h] == registry[k];
        let m = last_with_key(all, found.len() as int + h, key);
        assert(all[m] == kept[m - found.len()]);
        assert(kept.contains(all[m]));
        assert(registry.contains(all[m]));
        crate::node::laws::last_card_wins(all, m);
        let i = place_of(rows, key);
        assert(rows[i].0 == key);
        assert(rows[i].1 == all[m]);
        assert(shown[i] == all[m]);
    }
}

/// The last place from which on no card has the key any more.
proof fn last_with_key(list: Seq<CardView>, from: int, key: Seq<char>) -> (m: int)
    requires
        0 <= from < list.len(),
        list[from].public_key == key,
    ensures
        from <= m < list.len(),
        list[m].public_key == key,
        forall|j: int| m < j < list.len() ==> (#[trigger] list[j]).public_key != key,
    decreases list.len() - from,
{
    if exists|j: int| from < j < list.len() && (#[trigger] list[j]).public_key == key {
        let j = choose|j: int| from < j < list.len() && (#[trigger] list[j]).public_key == key;
        last_with_key(list, j, key)
    } else {
        from
    }
}

// ---- presence ----

/// An agent announces itself: who it is, what it can do, where it takes tasks, and for
/// how long this holds.
pub proof fn an_agent_announces_itself(card: CardView, ttl_secs: u64)
    ensures
        own_announcement(card, ttl_secs).agent_id == card.public_key,
        own_announcement(card, ttl_secs).name == card.name,
        own_announcement(card, ttl_secs).capabilities == card.capabilities,
        own_announcement(card, ttl_secs).ttl_secs == ttl_secs,
        own_announcement(card, ttl_secs).waku_topic == "/lmao/1/task-"@ + card.public_key
            + "/proto"@,
{
}

/// Every announcement that goes out is counted, as an announcement and as a message,
/// and nothing else changes.
pub proof fn announcements_are_counted(st: NodeState)
    ensures
        after_announcement(st).metrics.announcements_sent == counted(
            st.metrics.announcements_sent,
            1,
        ),
        after_announcement(st).metrics.messages_published == counted(
            st.metrics.messages_published,
            1,
        ),
        after_announcement(st).metrics.tasks_sent == st.metrics.tasks_sent,
        after_announcement(st).peers == st.peers,
        after_announcement(st).channel == st.channel,
{
}

/// A verified announcement of another agent is known from then on, as it was announced
/// and with the load that it reports, and is counted. What is known of others stays.
pub proof fn a_verified_presence_is_known(st: NodeState, p: ReceivedPresence, now: u64)
    requires
        distinct_keys(st.peers),
        p.verified,
        p.announcement@.agent_id != st.card.public_key,
    ensures
        ({
            let after = after_presence(st, p, now);
            let entry = lookup(after.peers, p.announcement@.agent_id);
            &&& entry is Some
            &&& entry->0.name == p.announcement@.name
            &&& entry->0.capabilities == p.announcement@.capabilities
            &&& entry->0.waku_topic == p.announcement@.waku_topic
            &&& entry->0.ttl_secs == p.announcement@.ttl_secs
            &&& entry->0.last_seen == now
            &&& entry->0.load == p.load
            &&& after.metrics.peers_discovered == counted(st.metrics.peers_discovered, 1)
            &&& forall|other: Seq<char>|
                other != p.announcement@.agent_id ==> #[trigger] lookup(after.peers, other)
                    == lookup(st.peers, other)
        }),
{
    put_then_look(
        st.peers,
        p.announcement@.agent_id,
        crate::node::discovery::presence_entry(p, now),
    );
}

/// Every announcement counts for itself: one of another agent that is verified adds
/// one, any other adds none, and two lists together count as much as one after the
/// other.
pub proof fn announcements_add_up(
    own: Seq<char>,
    before: Seq<ReceivedPresence>,
    p: ReceivedPresence,
    after: Seq<ReceivedPresence>,
)
    ensures
        accepted_count(own, before + after) == accepted_count(own, before) + accepted_count(
            own,
            after,
        ),
        accepted_count(own, seq![p]) == if p.verified && p.announcement@.agent_id != own {
            1nat
        } else {
            0nat
        },
        accepted_count(own, Seq::empty()) == 0,
    decreases after.len(),
{
    assert(seq![p].drop_last() =~= Seq::<ReceivedPresence>::empty());
    assert(accepted_count(own, Seq::<ReceivedPresence>::empty()) == 0);
    if after.len() == 0 {
        assert(before + after =~= before);
    } else {
        announcements_add_up(own, before, p, after.drop_last());
        assert((before + after).drop_last() =~= before + after.drop_last());
        assert((before + after).last() == after.last());
    }
}

/// A sealed report is opened by whom it is for and by nobody else, with the key that
/// the trust list has for the sender: the first that names the node itself.
pub proof fn a_report_is_opened_by_its_recipient(
    st: NodeState,
    sender: Seq<char>,
    recipients: Seq<Seq<char>>,
    at: int,
    key: Seq<char>,
)
    ensures
        openable(st, sender, recipients) == Some((at, key)) ==> {
            &&& st.identity is Some
            &&& 0 <= at < recipients.len()
            &&& recipients[at] == st.card.public_key
            &&& exists|e: int|
                0 <= e < st.trust.entries.len() && (#[trigger] st.trust.entries[e]).pubkey
                    == sender && st.trust.entries[e].encryption_pubkey == Some(key)
        },
{
    first_report(recipients, st.card.public_key);
    sealing_key_is_listed(st.trust.entries, sender);
}

proof fn first_report(recipients: Seq<Seq<char>>, own: Seq<char>)
    ensures
        0 <= report_place(recipients, own) <= recipients.len(),
        report_place(recipients, own) < recipients.len() ==> recipients[report_place(
            recipients,
            own,
        )] == own,
    decreases recipients.len(),
{
    if recipients.len() > 0 && recipients[0] != own {
        first_report(recipients.drop_first(), own);
    }
}

proof fn sealing_key_is_listed(entries: Seq<crate::trust::TrustEntryView>, sender: Seq<char>)
    ensures
        crate::trust::sealing_key(entries, sender) is Some ==> exists|e: int|
            0 <= e < entries.len() && (#[trigger] entries[e]).pubkey == sender
                && entries[e].encryption_pubkey == crate::trust::sealing_key(entries, sender),
    decreases entries.len(),
{
    if entries.len() > 0 {
        if entries[0].pubkey == sender {
            assert(entries[0].encryption_pubkey == crate::trust::sealing_key(entries, sender));
        } else {
            let rest = entries.drop_first();
            sealing_key_is_listed(rest, sender);
            if crate::trust::sealing_key(rest, sender) is Some {
                let e = choose|e: int|
                    0 <= e < rest.len() && (#[trigger] rest[e]).pubkey == sender
                        && rest[e].encryption_pubkey == crate::trust::sealing_key(rest, sender);
                assert(entries[e + 1] == rest[e]);
            }
        }
    }
}

// ---- load and sessions ----

/// The load that a node reports follows from the tasks under way and its ceiling: full
/// from the ceiling on, free where there is nothing to do, busy in between.
pub proof fn the_load_follows_the_tasks(queue_depth: u32, max_concurrent: u32)
    requires
        max_concurrent >= 1,
    ensures
        queue_depth == 0 ==> bucket_of(queue_depth, max_concurrent) == LoadBucket::Free,
        0 < queue_depth < max_concurrent ==> bucket_of(queue_depth, max_concurrent)
            == LoadBucket::Busy,
        queue_depth >= max_concurrent ==> bucket_of(queue_depth, max_concurrent)
            == LoadBucket::Full,
{
}

/// A node reports how many tasks it has under way, its ceiling, and the load that
/// follows from both.
pub proof fn a_node_reports_its_tasks(st: NodeState)
    requires
        st.in_flight <= u32::MAX,
    ensures
        load_of(st).queue_depth == st.in_flight,
        load_of(st).max_concurrent == st.max_concurrent,
        load_of(st).bucket == bucket_of(st.in_flight as u32, st.max_concurrent),
{
}

/// A session is dropped exactly where it was idle for longer than allowed; one that was
/// seen just so long ago, or later than now, stays.
pub proof fn only_idle_sessions_are_dropped(
    sessions: Seq<(Seq<char>, SessionView)>,
    max_age: u64,
    now: u64,
    row: (Seq<char>, SessionView),
)
    ensures
        active_sessions(sessions, max_age, now).contains(row) <==> sessions.contains(row) && now
            <= row.1.last_seen + max_age,
{
    filtered_members(
        sessions,
        |row: (Seq<char>, SessionView)|
            now <= row.1.last_seen || now - row.1.last_seen <= max_age,
    );
}

/// Every announcement of a batch is taken in, one after another: two batches in a row are
/// one batch, and a batch of one is that announcement.
pub proof fn every_announcement_is_taken_in(
    st: NodeState,
    before: Seq<ReceivedPresence>,
    p: ReceivedPresence,
    after: Seq<ReceivedPresence>,
    now: u64,
)
    ensures
        after_presences(st, before + after, now) == after_presences(
            after_presences(st, before, now),
            after,
            now,
        ),
        after_presences(st, seq![p], now) == after_presence(st, p, now),
        after_presences(st, Seq::empty(), now) == st,
    decreases after.len(),
{
    let none = Seq::<ReceivedPresence>::empty();
    assert(seq![p].drop_last() =~= none);
    assert(seq![p].last() == p);
    assert(after_presences(st, none, now) == st);
    if after.len() == 0 {
        assert(before + after =~= before);
    } else {
        every_announcement_is_taken_in(st, before, p, after.drop_last(), now);
        assert((before + after).drop_last() =~= before + after.drop_last());
        assert((before + after).last() == after.last());
    }
}

/// A peer that announced itself in a batch, verified, is known after it, unless it is the
/// agent itself.
pub proof fn whoever_announced_itself_is_known(
    st: NodeState,
    batch: Seq<ReceivedPresence>,
    i: int,
    now: u64,
)
    requires
        distinct_keys(st.peers),
        0 <= i < batch.len(),
        batch[i].verified,
        batch[i].announcement@.agent_id != st.card.public_key,
    ensures
        distinct_keys(after_presences(st, batch, now).peers),
        after_presences(st, batch, now).card == st.card,
        lookup(after_presences(st, batch, now).peers, batch[i].announcement@.agent_id) is Some,
        lookup(
            after_presences(st, batch, now).peers,
            batch[i].announcement@.agent_id,
        )->0.last_seen == now || i < batch.len() - 1,
    decreases batch.len(),
{
    let head = batch.drop_last();
    let last = batch.last();
    batches_keep_order(st, head, now);
    let before = after_presences(st, head, now);
    if last.verified && last.announcement@.agent_id != st.card.public_key {
        a_verified_presence_is_known(before, last, now);
        put_then_look(
            before.peers,
            last.announcement@.agent_id,
            crate::node::discovery::presence_entry(last, now),
        );
    }
    if i < head.len() {
        assert(head[i] == batch[i]);
        whoever_announced_itself_is_known(st, head, i, now);
    }
}

proof fn batches_keep_order(st: NodeState, batch: Seq<ReceivedPresence>, now: u64)
    requires
        distinct_keys(st.peers),
    ensures
        distinct_keys(after_presences(st, batch, now).peers),
        after_presences(st, batch, now).card == st.card,
    decreases batch.len(),
{
    if batch.len() > 0 {
        batches_keep_order(st, batch.drop_last(), now);
        let before = after_presences(st, batch.drop_last(), now);
        let p = batch.last();
        put_then_look(
            before.peers,
            p.announcement@.agent_id,
            crate::node::discovery::presence_entry(p, now),
        );
    }
}

} // verus!
