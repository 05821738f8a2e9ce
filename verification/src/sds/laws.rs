//! What holds of a channel across its steps.

use vstd::prelude::*;
use crate::codec::{hex_bytes, hex_round_trip, sha256_of};
use crate::sds::bloom::{holds, no_false_negatives, with_id, BLOOM_BYTES};
use crate::sds::message::{ContentView, EntryView, SdsView};
use crate::sds::state::{
    adopt, causal_history, channel_wf, counts_ok, credit_all, credited, distinct_ids,
    first_with_id, has_id, later, missing, next_content, next_sync, push_bounded, received,
    recorded, resolve, satisfied, sent, settled, tick, ticked, to_resend, waiting_after, walk, without_id,
    ChannelState, INCOMING_BUFFER_MAX, OUTGOING_BUFFER_MAX, POSSIBLE_ACKS_MAX,
};
use crate::table::{
    distinct_keys, has_key, lookup, place_is_unique, place_of, put_then_look, remove_then_look,
    with_row, without_row,
};

verus! {

/// Settling a message keeps the channel within its limits.
pub proof fn settled_keeps_wf(st: ChannelState, id: Seq<char>, time: u64)
    requires
        channel_wf(st),
    ensures
        channel_wf(settled(st, id, time)),
{
    no_false_negatives(st.filter, id);
}

/// Sending keeps the channel within its limits.
pub proof fn sent_keeps_wf(st: ChannelState, msg: ContentView)
    requires
        channel_wf(st),
    ensures
        channel_wf(sent(st, msg)),
{
    settled_keeps_wf(st, msg.message_id, msg.lamport_timestamp);
}

proof fn put_keeps_counts(acks: Seq<(Seq<char>, u32)>, id: Seq<char>, count: u32, threshold: u32)
    requires
        counts_ok(acks, threshold),
        count < threshold,
    ensures
        counts_ok(with_row(acks, id, count), threshold),
{
    put_then_look(acks, id, count);
}

proof fn remove_keeps_counts(acks: Seq<(Seq<char>, u32)>, id: Seq<char>, threshold: u32)
    requires
        counts_ok(acks, threshold),
    ensures
        counts_ok(without_row(acks, id), threshold),
{
    remove_then_look(acks, id);
    if has_key(acks, id) {
        let after = without_row(acks, id);
        let p = place_of(acks, id);
        assert forall|i: int| 0 <= i < after.len() implies (#[trigger] after[i]).1 < threshold by {
            assert(after[i] == acks[if i < p { i } else { i + 1 }]);
        }
    }
}

/// Counting keeps every count below the threshold and adds no message.
pub proof fn credit_all_keeps_counts(
    outgoing: Seq<ContentView>,
    acks: Seq<(Seq<char>, u32)>,
    remote: Seq<u8>,
    threshold: u32,
)
    requires
        counts_ok(acks, threshold),
    ensures
        counts_ok(credit_all(outgoing, acks, remote, threshold).1, threshold),
        credit_all(outgoing, acks, remote, threshold).0.len() <= outgoing.len(),
    decreases outgoing.len(),
{
    if outgoing.len() > 0 {
        credit_all_keeps_counts(outgoing.drop_last(), acks, remote, threshold);
        let before = credit_all(outgoing.drop_last(), acks, remote, threshold);
        let id = outgoing.last().message_id;
        remove_keeps_counts(before.1, id, threshold);
        if has_key(before.1, id) {
            place_is_unique(before.1, place_of(before.1, id));
        }
        let count = match lookup(before.1, id) {
            Some(n) => n + 1,
            None => 1int,
        };
        if count < threshold {
            put_keeps_counts(before.1, id, count as u32, threshold);
        }
    }
}

/// Seeing another participant's filter keeps the channel within its limits.
pub proof fn credited_keeps_wf(st: ChannelState, remote: Seq<u8>)
    requires
        channel_wf(st),
    ensures
        channel_wf(credited(st, remote)),
{
    credit_all_keeps_counts(
        st.outgoing,
        st.acks,
        remote,
        st.config.possible_acks_threshold,
    );
}

/// A walk over waiting messages keeps the channel within its limits; only filter
/// and history change.
pub proof fn walk_keeps_wf(st: ChannelState, waiting: Seq<ContentView>)
    requires
        channel_wf(st),
    ensures
        channel_wf(walk(st, waiting).state),
        walk(st, waiting).state == (ChannelState {
            filter: walk(st, waiting).state.filter,
            history: walk(st, waiting).state.history,
            ..st
        }),
        walk(st, waiting).waiting.len() + walk(st, waiting).delivered.len() == waiting.len(),
    decreases waiting.len(),
{
    if waiting.len() > 0 {
        walk_keeps_wf(st, waiting.drop_last());
        settled_keeps_wf(
            walk(st, waiting.drop_last()).state,
            waiting.last().message_id,
            waiting.last().lamport_timestamp,
        );
    }
}

/// Delivering what waits keeps the channel within its limits; only filter,
/// history and waiting messages change.
pub proof fn resolve_keeps_wf(st: ChannelState)
    requires
        channel_wf(st),
    ensures
        channel_wf(resolve(st).0),
        resolve(st).0 == (ChannelState {
            filter: resolve(st).0.filter,
            history: resolve(st).0.history,
            incoming: resolve(st).0.incoming,
            ..st
        }),
    decreases st.incoming.len(),
{
    walk_keeps_wf(st, st.incoming);
    walk_without_repeats(st, st.incoming);
    let p = walk(st, st.incoming);
    if p.delivered.len() > 0 {
        resolve_keeps_wf(ChannelState { incoming: p.waiting, ..p.state });
    }
}

/// Taking a message out of a list leaves the others, in order.
pub proof fn without_id_ids(list: Seq<ContentView>, id: Seq<char>)
    requires
        distinct_ids(list),
    ensures
        distinct_ids(without_id(list, id)),
        without_id(list, id).len() <= list.len(),
        !has_id(without_id(list, id), id),
        forall|other: Seq<char>| #[trigger]
            has_id(without_id(list, id), other) ==> has_id(list, other),
        !has_id(list, id) ==> without_id(list, id) == list,
    decreases list.len(),
{
    let keep = |m: ContentView| m.message_id != id;
    filter_keeps_distinct(list, keep);
    let kept = without_id(list, id);
    if has_id(kept, id) {
        let k = choose|k: int| 0 <= k < kept.len() && (#[trigger] kept[k]).message_id == id;
        assert(kept.contains(kept[k]));
    }
    reveal(Seq::filter);
    if list.len() > 0 {
        let head = list.drop_last();
        assert forall|i: int, j: int|
            0 <= i < head.len() && 0 <= j < head.len() && (#[trigger] head[i]).message_id == (
            #[trigger] head[j]).message_id implies i == j by {
            assert(list[i].message_id == list[j].message_id);
        }
        without_id_ids(head, id);
        if !has_id(list, id) {
            assert(list[list.len() - 1].message_id != id);
            if has_id(head, id) {
                let i = choose|i: int| 0 <= i < head.len() && (#[trigger] head[i]).message_id == id;
                assert(list[i].message_id == id);
            }
            assert(head.push(list.last()) =~= list);
        }
    } else {
        assert(kept =~= list);
    }
}

/// However a content message is taken in, no message waits twice.
pub proof fn waiting_keeps_distinct(incoming: Seq<ContentView>, content: ContentView, ready: bool)
    requires
        distinct_ids(incoming),
        incoming.len() <= INCOMING_BUFFER_MAX,
    ensures
        distinct_ids(waiting_after(incoming, content, ready)),
        waiting_after(incoming, content, ready).len() <= INCOMING_BUFFER_MAX,
        ready ==> !has_id(waiting_after(incoming, content, ready), content.message_id),
        forall|id: Seq<char>| #[trigger]
            has_id(waiting_after(incoming, content, ready), id) ==> has_id(incoming, id) || (
            !ready && id == content.message_id),
{
    without_id_ids(incoming, content.message_id);
    if !ready && !has_id(incoming, content.message_id) {
        push_bounded_ids(incoming, content);
    }
}

/// Whatever comes in, the channel stays within its limits.
pub proof fn received_keeps_wf(st: ChannelState, msg: SdsView)
    requires
        channel_wf(st),
    ensures
        channel_wf(received(st, msg).0),
{
    received_pieces(st, msg);
    resolve_keeps_wf(before_resolving(st, msg));
}

// ---- the clock ----

/// The clock never stands still: a reading that is not the last of the range is
/// followed by a larger one, and a clock that takes in a message moves past both
/// its own reading and the message's.
pub proof fn clock_moves_on(clock: u64, remote: u64)
    ensures
        clock < u64::MAX ==> tick(clock) > clock,
        later(clock, remote) < u64::MAX ==> adopt(clock, remote) > clock && adopt(clock, remote)
            > remote,
{
}

/// A content or sync message that was not seen before moves the clock past its
/// own reading and the message's; any other message leaves the clock alone.
pub proof fn receiving_moves_the_clock(st: ChannelState, msg: SdsView)
    requires
        channel_wf(st),
    ensures
        !holds(st.filter, msg.message_id()) ==> match msg {
            SdsView::Content(m) => received(st, msg).0.clock == adopt(
                st.clock,
                m.lamport_timestamp,
            ),
            SdsView::Sync(m) => received(st, msg).0.clock == adopt(st.clock, m.lamport_timestamp),
            SdsView::Ephemeral(_) => received(st, msg).0.clock == st.clock,
        },
        holds(st.filter, msg.message_id()) ==> received(st, msg).0.clock == st.clock,
{
    received_pieces(st, msg);
}

/// The state in which the waiting messages are walked over, for a message that
/// was not seen before.
pub open spec fn before_resolving(st: ChannelState, msg: SdsView) -> ChannelState {
    let seen = match msg.bloom_filter() {
        Some(remote) => credited(st, remote),
        None => st,
    };
    match msg {
        SdsView::Content(content) => {
            let ready = satisfied(seen.filter, content.causal_history);
            let on_time = ChannelState {
                clock: adopt(seen.clock, content.lamport_timestamp),
                incoming: waiting_after(seen.incoming, content, ready),
                ..seen
            };
            if ready {
                settled(on_time, content.message_id, content.lamport_timestamp)
            } else {
                on_time
            }
        },
        SdsView::Sync(sync) => ChannelState {
            filter: with_id(seen.filter, sync.message_id),
            clock: adopt(seen.clock, sync.lamport_timestamp),
            ..seen
        },
        SdsView::Ephemeral(eph) => ChannelState {
            filter: with_id(seen.filter, eph.message_id),
            ..seen
        },
    }
}

/// What is delivered at once, before the waiting messages are walked over.
pub open spec fn delivered_at_once(st: ChannelState, msg: SdsView) -> Seq<ContentView> {
    match msg {
        SdsView::Content(content) => if satisfied(st.filter, content.causal_history) {
            seq![content]
        } else {
            seq![]
        },
        _ => seq![],
    }
}

/// Receiving is delivering at once, then resolving.
proof fn received_pieces(st: ChannelState, msg: SdsView)
    requires
        channel_wf(st),
    ensures
        channel_wf(before_resolving(st, msg)),
        before_resolving(st, msg).incoming == match msg {
            SdsView::Content(c) => waiting_after(
                st.incoming,
                c,
                satisfied(st.filter, c.causal_history),
            ),
            _ => st.incoming,
        },
        before_resolving(st, msg).filter == match msg {
            SdsView::Content(c) => if satisfied(st.filter, c.causal_history) {
                with_id(st.filter, c.message_id)
            } else {
                st.filter
            },
            _ => with_id(st.filter, msg.message_id()),
        },
        !holds(st.filter, msg.message_id()) && !(msg is Ephemeral) ==> received(st, msg) == (
            resolve(before_resolving(st, msg)).0,
            delivered_at_once(st, msg) + resolve(before_resolving(st, msg)).1,
        ),
        !holds(st.filter, msg.message_id()) && msg is Ephemeral ==> received(st, msg) == (
            before_resolving(st, msg),
            Seq::<ContentView>::empty(),
        ),
        !holds(st.filter, msg.message_id()) && !(msg is Ephemeral) ==> received(st, msg).0.clock
            == before_resolving(st, msg).clock,
{
    match msg.bloom_filter() {
        Some(remote) => credited_keeps_wf(st, remote),
        None => {},
    }
    let seen = match msg.bloom_filter() {
        Some(remote) => credited(st, remote),
        None => st,
    };
    no_false_negatives(seen.filter, msg.message_id());
    match msg {
        SdsView::Content(content) => {
            let ready = satisfied(seen.filter, content.causal_history);
            let on_time = ChannelState {
                clock: adopt(seen.clock, content.lamport_timestamp),
                incoming: waiting_after(seen.incoming, content, ready),
                ..seen
            };
            waiting_keeps_distinct(seen.incoming, content, ready);
            settled_keeps_wf(on_time, content.message_id, content.lamport_timestamp);
        },
        _ => {},
    }
    let b = before_resolving(st, msg);
    resolve_keeps_wf(b);
    assert(delivered_at_once(st, msg) + resolve(b).1 =~= if delivered_at_once(st, msg).len() == 0 {
        resolve(b).1
    } else {
        seq![msg->Content_0] + resolve(b).1
    });
}

// ---- deduplication ----

/// A message whose id was seen before changes nothing and delivers nothing.
pub proof fn seen_messages_are_ignored(st: ChannelState, msg: SdsView)
    requires
        holds(st.filter, msg.message_id()),
    ensures
        received(st, msg) == (st, Seq::<ContentView>::empty()),
{
}

/// The filter once the ids of some messages were added in order.
pub open spec fn with_messages(filter: Seq<u8>, list: Seq<ContentView>) -> Seq<u8>
    decreases list.len(),
{
    if list.len() == 0 {
        filter
    } else {
        with_id(with_messages(filter, list.drop_last()), list.last().message_id)
    }
}

/// Every id in a list is held.
pub open spec fn all_held(filter: Seq<u8>, list: Seq<ContentView>) -> bool {
    forall|i: int| 0 <= i < list.len() ==> holds(filter, (#[trigger] list[i]).message_id)
}

proof fn with_messages_remembers(filter: Seq<u8>, list: Seq<ContentView>)
    requires
        filter.len() == BLOOM_BYTES,
    ensures
        with_messages(filter, list).len() == BLOOM_BYTES,
        all_held(with_messages(filter, list), list),
        forall|id: Seq<char>| holds(filter, id) ==> #[trigger] holds(with_messages(filter, list), id),
    decreases list.len(),
{
    if list.len() > 0 {
        with_messages_remembers(filter, list.drop_last());
        no_false_negatives(with_messages(filter, list.drop_last()), list.last().message_id);
        assert forall|i: int| 0 <= i < list.len() implies holds(
            with_messages(filter, list),
            (#[trigger] list[i]).message_id,
        ) by {
            if i < list.len() - 1 {
                assert(list.drop_last()[i] == list[i]);
            }
        }
    }
}

proof fn with_messages_joins(filter: Seq<u8>, a: Seq<ContentView>, b: Seq<ContentView>)
    ensures
        with_messages(filter, a + b) == with_messages(with_messages(filter, a), b),
    decreases b.len(),
{
    if b.len() == 0 {
        assert(a + b =~= a);
    } else {
        with_messages_joins(filter, a, b.drop_last());
        assert((a + b).drop_last() =~= a + b.drop_last());
        assert((a + b).last() == b.last());
    }
}

// ---- causal order ----

/// Each message of the list comes after its dependencies: those are held once
/// the messages before it in the list were added to the filter.
pub open spec fn causally_ordered(filter: Seq<u8>, list: Seq<ContentView>) -> bool {
    forall|k: int|
        0 <= k < list.len() ==> satisfied(
            with_messages(filter, list.take(k)),
            (#[trigger] list[k]).causal_history,
        )
}

proof fn causal_push(filter: Seq<u8>, list: Seq<ContentView>, msg: ContentView)
    requires
        causally_ordered(filter, list),
        satisfied(with_messages(filter, list), msg.causal_history),
    ensures
        causally_ordered(filter, list.push(msg)),
        with_messages(filter, list.push(msg)) == with_id(
            with_messages(filter, list),
            msg.message_id,
        ),
{
    let all = list.push(msg);
    assert(all.drop_last() =~= list);
    assert forall|k: int| 0 <= k < all.len() implies satisfied(
        with_messages(filter, all.take(k)),
        (#[trigger] all[k]).causal_history,
    ) by {
        if k < list.len() {
            assert(all.take(k) =~= list.take(k));
            assert(all[k] == list[k]);
        } else {
            assert(all.take(k) =~= list);
        }
    }
}

proof fn causal_join(filter: Seq<u8>, a: Seq<ContentView>, b: Seq<ContentView>)
    requires
        causally_ordered(filter, a),
        causally_ordered(with_messages(filter, a), b),
    ensures
        causally_ordered(filter, a + b),
        with_messages(filter, a + b) == with_messages(with_messages(filter, a), b),
{
    with_messages_joins(filter, a, b);
    let all = a + b;
    assert forall|k: int| 0 <= k < all.len() implies satisfied(
        with_messages(filter, all.take(k)),
        (#[trigger] all[k]).causal_history,
    ) by {
        if k < a.len() {
            assert(all.take(k) =~= a.take(k));
            assert(all[k] == a[k]);
        } else {
            let j = k - a.len();
            assert(all.take(k) =~= a + b.take(j));
            with_messages_joins(filter, a, b.take(j));
            assert(all[k] == b[j]);
        }
    }
}

proof fn walk_in_causal_order(st: ChannelState, waiting: Seq<ContentView>)
    ensures
        causally_ordered(st.filter, walk(st, waiting).delivered),
        walk(st, waiting).state.filter == with_messages(st.filter, walk(st, waiting).delivered),
    decreases waiting.len(),
{
    if waiting.len() > 0 {
        walk_in_causal_order(st, waiting.drop_last());
        let p = walk(st, waiting.drop_last());
        if satisfied(p.state.filter, waiting.last().causal_history) {
            causal_push(st.filter, p.delivered, waiting.last());
        }
    }
}

proof fn resolve_in_causal_order(st: ChannelState)
    ensures
        causally_ordered(st.filter, resolve(st).1),
        resolve(st).0.filter == with_messages(st.filter, resolve(st).1),
    decreases st.incoming.len(),
{
    walk_in_causal_order(st, st.incoming);
    let p = walk(st, st.incoming);
    if p.delivered.len() > 0 {
        walk_counts(st, st.incoming);
        let next = ChannelState { incoming: p.waiting, ..p.state };
        resolve_in_causal_order(next);
        causal_join(st.filter, p.delivered, resolve(next).1);
    }
}

proof fn walk_counts(st: ChannelState, waiting: Seq<ContentView>)
    ensures
        walk(st, waiting).waiting.len() + walk(st, waiting).delivered.len() == waiting.len(),
    decreases waiting.len(),
{
    if waiting.len() > 0 {
        walk_counts(st, waiting.drop_last());
    }
}

/// The filter by which the dependencies of delivered messages are judged: a sync
/// message itself counts as seen before anything is delivered.
pub open spec fn judging_filter(st: ChannelState, msg: SdsView) -> Seq<u8> {
    match msg {
        SdsView::Content(_) => st.filter,
        _ => with_id(st.filter, msg.message_id()),
    }
}

/// Messages are delivered in causal order: each comes after all of its
/// dependencies, and the filter afterwards is the one before with exactly the
/// delivered messages (and a sync or ephemeral message itself) added.
pub proof fn delivery_is_causal(st: ChannelState, msg: SdsView)
    requires
        channel_wf(st),
        !holds(st.filter, msg.message_id()),
    ensures
        causally_ordered(judging_filter(st, msg), received(st, msg).1),
        received(st, msg).0.filter == with_messages(
            judging_filter(st, msg),
            received(st, msg).1,
        ),
{
    received_pieces(st, msg);
    let b = before_resolving(st, msg);
    let first = delivered_at_once(st, msg);
    let f = judging_filter(st, msg);
    resolve_in_causal_order(b);
    if first.len() == 1 {
        let none = Seq::<ContentView>::empty();
        causal_push(f, none, msg->Content_0);
        assert(none.push(msg->Content_0) =~= first);
    } else {
        assert(first =~= Seq::<ContentView>::empty());
    }
    causal_join(f, first, resolve(b).1);
}

/// What was delivered is seen from then on: receiving it again, in any form,
/// delivers nothing. And whatever was seen stays seen.
pub proof fn delivered_is_seen(st: ChannelState, msg: SdsView)
    requires
        channel_wf(st),
    ensures
        all_held(received(st, msg).0.filter, received(st, msg).1),
        forall|id: Seq<char>|
            holds(st.filter, id) ==> #[trigger] holds(received(st, msg).0.filter, id),
        forall|again: SdsView|
            again is Content && received(st, msg).1.contains(again->Content_0)
                ==> #[trigger] received(received(st, msg).0, again) == (
                received(st, msg).0,
                Seq::<ContentView>::empty(),
            ),
{
    if !holds(st.filter, msg.message_id()) {
        delivery_is_causal(st, msg);
        no_false_negatives(st.filter, msg.message_id());
        with_messages_remembers(judging_filter(st, msg), received(st, msg).1);
    }
}

/// A message that was not seen before and whose dependencies were seen is
/// delivered at once, before anything that waited for it.
pub proof fn ready_messages_are_delivered(st: ChannelState, content: ContentView)
    requires
        channel_wf(st),
        !holds(st.filter, content.message_id),
        satisfied(st.filter, content.causal_history),
    ensures
        received(st, SdsView::Content(content)).1.len() > 0,
        received(st, SdsView::Content(content)).1[0] == content,
{
    received_pieces(st, SdsView::Content(content));
}

/// Two messages that arrive in the wrong order are delivered in the right one:
/// the second waits until the first is there, and then both come out, the first
/// one first.
pub proof fn wrong_order_is_put_right(st: ChannelState, first: ContentView, second: ContentView)
    requires
        channel_wf(st),
        st.incoming.len() == 0,
        !holds(st.filter, first.message_id),
        !holds(st.filter, second.message_id),
        first.message_id != second.message_id,
        satisfied(st.filter, first.causal_history),
        !satisfied(st.filter, second.causal_history),
        satisfied(with_id(st.filter, first.message_id), second.causal_history),
    ensures
        received(st, SdsView::Content(second)).1.len() == 0,
        received(received(st, SdsView::Content(second)).0, SdsView::Content(first)).1 == seq![
            first,
            second,
        ],
{
    let two = SdsView::Content(second);
    let one = SdsView::Content(first);
    received_pieces(st, two);
    let b = before_resolving(st, two);
    let empty = Seq::<ContentView>::empty();
    assert(!has_id(st.incoming, second.message_id));
    assert(b.incoming =~= seq![second]);
    assert(b.incoming.drop_last() =~= empty);
    assert(walk(b, empty).state == b);
    assert(walk(b, b.incoming).delivered =~= empty);
    assert(resolve(b) == (b, empty));
    let mid = received(st, two).0;
    assert(mid == b);
    assert(received(st, two).1 =~= empty);
    received_pieces(mid, one);
    let c = before_resolving(mid, one);
    without_id_ids(mid.incoming, first.message_id);
    assert(mid.incoming[0] == second);
    assert(!has_id(mid.incoming, first.message_id));
    assert(c.incoming =~= seq![second]);
    assert(c.incoming.drop_last() =~= empty);
    assert(walk(c, empty).state == c);
    let p = walk(c, c.incoming);
    assert(p.delivered =~= seq![second]);
    assert(p.waiting =~= empty);
    let d = ChannelState { incoming: p.waiting, ..p.state };
    assert(walk(d, empty).delivered.len() == 0);
    assert(resolve(d).1 =~= empty);
    assert(resolve(c).1 =~= seq![second]);
    assert(delivered_at_once(mid, one) + resolve(c).1 =~= seq![first, second]);
}

// ---- waiting messages ----

proof fn idle_walk(st: ChannelState, waiting: Seq<ContentView>)
    requires
        walk(st, waiting).delivered.len() == 0,
    ensures
        walk(st, waiting).state == st,
        forall|i: int|
            0 <= i < waiting.len() ==> !satisfied(
                st.filter,
                (#[trigger] waiting[i]).causal_history,
            ),
    decreases waiting.len(),
{
    if waiting.len() > 0 {
        idle_walk(st, waiting.drop_last());
        assert forall|i: int| 0 <= i < waiting.len() implies !satisfied(
            st.filter,
            (#[trigger] waiting[i]).causal_history,
        ) by {
            if i < waiting.len() - 1 {
                assert(waiting.drop_last()[i] == waiting[i]);
            }
        }
    }
}

proof fn resolve_leaves_none_ready(st: ChannelState)
    ensures
        forall|i: int|
            0 <= i < resolve(st).0.incoming.len() ==> !satisfied(
                resolve(st).0.filter,
                (#[trigger] resolve(st).0.incoming[i]).causal_history,
            ),
    decreases st.incoming.len(),
{
    let p = walk(st, st.incoming);
    if p.delivered.len() == 0 {
        idle_walk(st, st.incoming);
    } else {
        walk_counts(st, st.incoming);
        resolve_leaves_none_ready(ChannelState { incoming: p.waiting, ..p.state });
    }
}

/// After a content or sync message that was not seen before, no message is left
/// waiting whose dependencies were all seen.
pub proof fn none_left_ready(st: ChannelState, msg: SdsView)
    requires
        channel_wf(st),
        !holds(st.filter, msg.message_id()),
        !(msg is Ephemeral),
    ensures
        forall|i: int|
            0 <= i < received(st, msg).0.incoming.len() ==> !satisfied(
                received(st, msg).0.filter,
                (#[trigger] received(st, msg).0.incoming[i]).causal_history,
            ),
{
    received_pieces(st, msg);
    resolve_leaves_none_ready(before_resolving(st, msg));
}

proof fn walk_conserves(st: ChannelState, waiting: Seq<ContentView>)
    ensures
        waiting.to_multiset() =~= walk(st, waiting).waiting.to_multiset().add(
            walk(st, waiting).delivered.to_multiset(),
        ),
    decreases waiting.len(),
{
    broadcast use vstd::seq_lib::group_to_multiset_ensures;

    if waiting.len() > 0 {
        walk_conserves(st, waiting.drop_last());
        assert(waiting.drop_last().push(waiting.last()) =~= waiting);
    }
}

proof fn join_multisets(a: Seq<ContentView>, b: Seq<ContentView>)
    ensures
        (a + b).to_multiset() =~= a.to_multiset().add(b.to_multiset()),
{
    vstd::seq_lib::lemma_multiset_commutative(a, b);
}

proof fn resolve_conserves(st: ChannelState)
    ensures
        st.incoming.to_multiset() =~= resolve(st).0.incoming.to_multiset().add(
            resolve(st).1.to_multiset(),
        ),
    decreases st.incoming.len(),
{
    broadcast use vstd::seq_lib::group_to_multiset_ensures;

    let p = walk(st, st.incoming);
    if p.delivered.len() > 0 {
        walk_counts(st, st.incoming);
        walk_conserves(st, st.incoming);
        let next = ChannelState { incoming: p.waiting, ..p.state };
        resolve_conserves(next);
        join_multisets(p.delivered, resolve(next).1);
    }
}

/// What there is to deliver once a content message has come in: what waited, and
/// the message. Of a message that waited already there is still only one copy, the
/// new one where it is ready and the waiting one otherwise.
pub open spec fn at_hand(st: ChannelState, content: ContentView) -> Seq<ContentView> {
    if satisfied(st.filter, content.causal_history) {
        without_id(st.incoming, content.message_id).push(content)
    } else if has_id(st.incoming, content.message_id) {
        st.incoming
    } else {
        st.incoming.push(content)
    }
}

/// No message is lost or made up: as long as the buffer has room, what waited
/// before together with a new content message is what waits afterwards together
/// with what was delivered.
pub proof fn nothing_lost(st: ChannelState, content: ContentView)
    requires
        channel_wf(st),
        !holds(st.filter, content.message_id),
        st.incoming.len() < INCOMING_BUFFER_MAX,
    ensures
        at_hand(st, content).to_multiset() =~= received(
            st,
            SdsView::Content(content),
        ).0.incoming.to_multiset().add(
            received(st, SdsView::Content(content)).1.to_multiset(),
        ),
        !has_id(st.incoming, content.message_id) ==> at_hand(st, content) == st.incoming.push(
            content,
        ),
{
    broadcast use vstd::seq_lib::group_to_multiset_ensures;

    let msg = SdsView::Content(content);
    received_pieces(st, msg);
    without_id_ids(st.incoming, content.message_id);
    let b = before_resolving(st, msg);
    resolve_conserves(b);
    join_multisets(delivered_at_once(st, msg), resolve(b).1);
    assert(Seq::<ContentView>::empty().push(content) =~= seq![content]);
}

// ---- at most once ----

/// No id is in both lists.
pub open spec fn disjoint_ids(a: Seq<ContentView>, b: Seq<ContentView>) -> bool {
    forall|i: int, j: int|
        0 <= i < a.len() && 0 <= j < b.len() ==> (#[trigger] a[i]).message_id != (
        #[trigger] b[j]).message_id
}

/// Every id of `a` is in `b`.
pub open spec fn ids_within(a: Seq<ContentView>, b: Seq<ContentView>) -> bool {
    forall|i: int| 0 <= i < a.len() ==> has_id(b, (#[trigger] a[i]).message_id)
}

/// A walk over messages without repeats leaves and delivers messages without
/// repeats, none of them both.
pub proof fn walk_without_repeats(st: ChannelState, waiting: Seq<ContentView>)
    requires
        distinct_ids(waiting),
    ensures
        distinct_ids(walk(st, waiting).waiting),
        distinct_ids(walk(st, waiting).delivered),
        disjoint_ids(walk(st, waiting).waiting, walk(st, waiting).delivered),
        ids_within(walk(st, waiting).waiting, waiting),
        ids_within(walk(st, waiting).delivered, waiting),
    decreases waiting.len(),
{
    if waiting.len() > 0 {
        let head = waiting.drop_last();
        let msg = waiting.last();
        walk_without_repeats(st, head);
        let p = walk(st, head);
        let q = walk(st, waiting);
        assert(!has_id(head, msg.message_id)) by {
            if has_id(head, msg.message_id) {
                let i = choose|i: int|
                    0 <= i < head.len() && (#[trigger] head[i]).message_id == msg.message_id;
                assert(waiting[i] == head[i]);
                assert(waiting[waiting.len() - 1] == msg);
            }
        }
        assert forall|id: Seq<char>| has_id(head, id) implies has_id(waiting, id) by {
            let i = choose|i: int| 0 <= i < head.len() && (#[trigger] head[i]).message_id == id;
            assert(waiting[i] == head[i]);
        }
        assert(waiting[waiting.len() - 1].message_id == msg.message_id);
        assert(has_id(waiting, msg.message_id));
        assert forall|i: int| 0 <= i < p.waiting.len() implies (
        #[trigger] p.waiting[i]).message_id != msg.message_id by {
            assert(has_id(head, p.waiting[i].message_id));
        }
        assert forall|i: int| 0 <= i < p.delivered.len() implies (
        #[trigger] p.delivered[i]).message_id != msg.message_id by {
            assert(has_id(head, p.delivered[i].message_id));
        }
    }
}

proof fn resolve_without_repeats(st: ChannelState)
    requires
        distinct_ids(st.incoming),
    ensures
        distinct_ids(resolve(st).0.incoming),
        distinct_ids(resolve(st).1),
        disjoint_ids(resolve(st).0.incoming, resolve(st).1),
        ids_within(resolve(st).0.incoming, st.incoming),
        ids_within(resolve(st).1, st.incoming),
    decreases st.incoming.len(),
{
    let p = walk(st, st.incoming);
    walk_without_repeats(st, st.incoming);
    walk_counts(st, st.incoming);
    if p.delivered.len() > 0 {
        let next = ChannelState { incoming: p.waiting, ..p.state };
        resolve_without_repeats(next);
        let r = resolve(next);
        let all = p.delivered + r.1;
        assert forall|id: Seq<char>| has_id(p.waiting, id) implies has_id(st.incoming, id) && !has_id(
            p.delivered,
            id,
        ) by {
            let i = choose|i: int|
                0 <= i < p.waiting.len() && (#[trigger] p.waiting[i]).message_id == id;
            assert(has_id(st.incoming, p.waiting[i].message_id));
        }
        assert forall|i: int| 0 <= i < r.1.len() implies !has_id(
            p.delivered,
            (#[trigger] r.1[i]).message_id,
        ) by {
            assert(has_id(p.waiting, r.1[i].message_id));
        }
        assert forall|i: int| 0 <= i < r.0.incoming.len() implies !has_id(
            p.delivered,
            (#[trigger] r.0.incoming[i]).message_id,
        ) by {
            assert(has_id(p.waiting, r.0.incoming[i].message_id));
        }
        assert forall|i: int, j: int|
            0 <= i < all.len() && 0 <= j < all.len() && (#[trigger] all[i]).message_id == (
            #[trigger] all[j]).message_id implies i == j by {
            let n = p.delivered.len();
            if i < n && j < n {
                assert(p.delivered[i].message_id == p.delivered[j].message_id);
            } else if i >= n && j >= n {
                assert(r.1[i - n].message_id == r.1[j - n].message_id);
            } else if i < n {
                assert(p.delivered[i].message_id == r.1[j - n].message_id);
            } else {
                assert(p.delivered[j].message_id == r.1[i - n].message_id);
            }
        }
        assert forall|i: int, j: int| 0 <= i < r.0.incoming.len() && 0 <= j < all.len() implies (
        #[trigger] r.0.incoming[i]).message_id != (#[trigger] all[j]).message_id by {
            let n = p.delivered.len();
            if j < n {
                assert(all[j] == p.delivered[j]);
            } else {
                assert(all[j] == r.1[j - n]);
            }
        }
        assert forall|i: int| 0 <= i < r.0.incoming.len() implies has_id(
            st.incoming,
            (#[trigger] r.0.incoming[i]).message_id,
        ) by {
            assert(has_id(p.waiting, r.0.incoming[i].message_id));
        }
        assert forall|i: int| 0 <= i < all.len() implies has_id(
            st.incoming,
            (#[trigger] all[i]).message_id,
        ) by {
            let n = p.delivered.len();
            if i < n {
                assert(all[i] == p.delivered[i]);
            } else {
                assert(all[i] == r.1[i - n]);
                assert(has_id(p.waiting, r.1[i - n].message_id));
            }
        }
    }
}

/// One step of at-most-once delivery. What a step delivers has distinct ids, none
/// of them among those delivered before, and nothing that was delivered is left
/// waiting.
pub proof fn delivered_at_most_once(st: ChannelState, msg: SdsView, past: Seq<ContentView>)
    requires
        channel_wf(st),
        distinct_ids(past),
        all_held(st.filter, past),
        disjoint_ids(st.incoming, past),
    ensures
        distinct_ids(past + received(st, msg).1),
        all_held(received(st, msg).0.filter, past + received(st, msg).1),
        disjoint_ids(received(st, msg).0.incoming, past + received(st, msg).1),
{
    let st2 = received(st, msg).0;
    let out = received(st, msg).1;
    let all = past + out;
    delivered_is_seen(st, msg);
    if holds(st.filter, msg.message_id()) {
        assert(all =~= past);
    } else {
        received_pieces(st, msg);
        let b = before_resolving(st, msg);
        let first = delivered_at_once(st, msg);
        let id = msg.message_id();
        if let SdsView::Content(c) = msg {
            waiting_keeps_distinct(
                st.incoming,
                c,
                satisfied(st.filter, c.causal_history),
            );
        }
        resolve_without_repeats(b);
        let rest = if msg is Ephemeral {
            Seq::<ContentView>::empty()
        } else {
            resolve(b).1
        };
        assert(out =~= first + rest);
        // The new message is not among those delivered before.
        assert(!has_id(past, id)) by {
            if has_id(past, id) {
                let i = choose|i: int| 0 <= i < past.len() && (#[trigger] past[i]).message_id == id;
                assert(holds(st.filter, past[i].message_id));
            }
        }
        // Nothing that waits afterwards, or came out of the buffer, was delivered before.
        assert forall|j: int| 0 <= j < rest.len() implies !has_id(
            past,
            (#[trigger] rest[j]).message_id,
        ) by {
            assert(has_id(b.incoming, rest[j].message_id));
        }
        assert forall|j: int| 0 <= j < st2.incoming.len() implies !has_id(
            past,
            (#[trigger] st2.incoming[j]).message_id,
        ) by {
            if msg is Ephemeral {
                assert(st2.incoming[j] == st.incoming[j]);
            } else {
                assert(has_id(b.incoming, st2.incoming[j].message_id));
            }
        }
        assert(first.len() == 1 ==> first[0].message_id == id && !has_id(b.incoming, id));
        assert forall|i: int, j: int|
            0 <= i < all.len() && 0 <= j < all.len() && (#[trigger] all[i]).message_id == (
            #[trigger] all[j]).message_id implies i == j by {
            at_most_once_pair(past, first, rest, b.incoming, id, i, j);
        }
        assert forall|i: int| 0 <= i < all.len() implies holds(
            st2.filter,
            (#[trigger] all[i]).message_id,
        ) by {
            if i < past.len() {
                assert(all[i] == past[i]);
            } else {
                assert(all[i] == out[i - past.len()]);
            }
        }
        assert forall|i: int, j: int| 0 <= i < st2.incoming.len() && 0 <= j < all.len() implies (
        #[trigger] st2.incoming[i]).message_id != (#[trigger] all[j]).message_id by {
            let n = past.len() as int;
            if j < n {
                assert(all[j] == past[j]);
                assert(!has_id(past, st2.incoming[i].message_id));
            } else if j < n + first.len() {
                assert(all[j] == first[j - n]);
                assert(has_id(b.incoming, st2.incoming[i].message_id));
            } else {
                assert(all[j] == rest[j - n - first.len()]);
            }
        }
    }
}

/// What waits after a message was added to the buffer.
proof fn push_bounded_ids(incoming: Seq<ContentView>, c: ContentView)
    requires
        distinct_ids(incoming),
        !has_id(incoming, c.message_id),
    ensures
        distinct_ids(push_bounded(incoming, c, INCOMING_BUFFER_MAX as nat)),
        forall|id: Seq<char>| #[trigger]
            has_id(push_bounded(incoming, c, INCOMING_BUFFER_MAX as nat), id) ==> has_id(
                incoming,
                id,
            ) || id == c.message_id,
{
    let after = push_bounded(incoming, c, INCOMING_BUFFER_MAX as nat);
    let shift = if incoming.len() >= INCOMING_BUFFER_MAX {
        1int
    } else {
        0
    };
    assert forall|i: int| 0 <= i < after.len() - 1 implies #[trigger] after[i] == incoming[i
        + shift] by {}
    assert(after[after.len() - 1] == c);
    assert forall|i: int, j: int|
        0 <= i < after.len() && 0 <= j < after.len() && (#[trigger] after[i]).message_id == (
        #[trigger] after[j]).message_id implies i == j by {
        if i < after.len() - 1 && j < after.len() - 1 {
            assert(incoming[i + shift].message_id == incoming[j + shift].message_id);
        } else if i < after.len() - 1 {
            assert(incoming[i + shift].message_id == c.message_id);
        } else if j < after.len() - 1 {
            assert(incoming[j + shift].message_id == c.message_id);
        }
    }
    assert forall|id: Seq<char>| #[trigger] has_id(after, id) implies has_id(incoming, id) || id
        == c.message_id by {
        let i = choose|i: int| 0 <= i < after.len() && (#[trigger] after[i]).message_id == id;
        if i < after.len() - 1 {
            assert(incoming[i + shift].message_id == id);
        }
    }
}

proof fn at_most_once_pair(
    past: Seq<ContentView>,
    first: Seq<ContentView>,
    rest: Seq<ContentView>,
    waiting: Seq<ContentView>,
    id: Seq<char>,
    i: int,
    j: int,
)
    requires
        distinct_ids(past),
        distinct_ids(rest),
        first.len() <= 1,
        first.len() == 1 ==> first[0].message_id == id && !has_id(waiting, id),
        ids_within(rest, waiting),
        !has_id(past, id),
        forall|k: int| 0 <= k < rest.len() ==> !has_id(past, (#[trigger] rest[k]).message_id),
        0 <= i < past.len() + first.len() + rest.len(),
        0 <= j < past.len() + first.len() + rest.len(),
        (past + (first + rest))[i].message_id == (past + (first + rest))[j].message_id,
    ensures
        i == j,
{
    let n = past.len() as int;
    let m = n + first.len();
    let all = past + (first + rest);
    let a = if i < n {
        past[i]
    } else if i < m {
        first[i - n]
    } else {
        rest[i - m]
    };
    let b = if j < n {
        past[j]
    } else if j < m {
        first[j - n]
    } else {
        rest[j - m]
    };
    assert(all[i] == a);
    assert(all[j] == b);
    if i < n && j >= m {
        assert(!has_id(past, rest[j - m].message_id));
    } else if j < n && i >= m {
        assert(!has_id(past, rest[i - m].message_id));
    } else if i >= m && n <= j < m {
        assert(has_id(waiting, rest[i - m].message_id));
    } else if j >= m && n <= i < m {
        assert(has_id(waiting, rest[j - m].message_id));
    } else if i < n && n <= j < m {
        assert(past[i].message_id == id);
    } else if j < n && n <= i < m {
        assert(past[j].message_id == id);
    }
}

/// The state and all that was delivered after a run of messages.
pub open spec fn run(st: ChannelState, msgs: Seq<SdsView>) -> (ChannelState, Seq<ContentView>)
    decreases msgs.len(),
{
    if msgs.len() == 0 {
        (st, seq![])
    } else {
        let before = run(st, msgs.drop_last());
        let last = received(before.0, msgs.last());
        (last.0, before.1 + last.1)
    }
}

/// At-most-once delivery: over a whole run, however often messages are repeated
/// and in whatever order they come, no id is delivered twice.
pub proof fn never_delivered_twice(st: ChannelState, msgs: Seq<SdsView>)
    requires
        channel_wf(st),
    ensures
        distinct_ids(run(st, msgs).1),
{
    run_without_repeats(st, msgs);
}

proof fn run_without_repeats(st: ChannelState, msgs: Seq<SdsView>)
    requires
        channel_wf(st),
    ensures
        channel_wf(run(st, msgs).0),
        distinct_ids(run(st, msgs).1),
        all_held(run(st, msgs).0.filter, run(st, msgs).1),
        disjoint_ids(run(st, msgs).0.incoming, run(st, msgs).1),
    decreases msgs.len(),
{
    if msgs.len() > 0 {
        run_without_repeats(st, msgs.drop_last());
        let before = run(st, msgs.drop_last());
        delivered_at_most_once(before.0, msgs.last(), before.1);
        received_keeps_wf(before.0, msgs.last());
    }
}

/// A message that comes again while it waits changes nothing about what waits:
/// there is still one copy, and nothing is delivered.
pub proof fn waiting_messages_are_not_doubled(st: ChannelState, content: ContentView)
    requires
        channel_wf(st),
        has_id(st.incoming, content.message_id),
        !satisfied(st.filter, content.causal_history),
        forall|i: int|
            0 <= i < st.incoming.len() ==> !satisfied(
                st.filter,
                (#[trigger] st.incoming[i]).causal_history,
            ),
    ensures
        received(st, SdsView::Content(content)).0.incoming == st.incoming,
        received(st, SdsView::Content(content)).1.len() == 0,
{
    let msg = SdsView::Content(content);
    received_pieces(st, msg);
    if !holds(st.filter, content.message_id) {
        nothing_ready(before_resolving(st, msg), st.incoming);
    }
}

proof fn nothing_ready(st: ChannelState, waiting: Seq<ContentView>)
    requires
        forall|i: int|
            0 <= i < waiting.len() ==> !satisfied(
                st.filter,
                (#[trigger] waiting[i]).causal_history,
            ),
    ensures
        walk(st, waiting).state == st,
        walk(st, waiting).delivered.len() == 0,
    decreases waiting.len(),
{
    if waiting.len() > 0 {
        let head = waiting.drop_last();
        assert forall|i: int| 0 <= i < head.len() implies !satisfied(
            st.filter,
            (#[trigger] head[i]).causal_history,
        ) by {
            assert(waiting[i] == head[i]);
        }
        nothing_ready(st, head);
        assert(waiting[waiting.len() - 1] == waiting.last());
    }
}

// ---- sending ----

/// A message that was sent is seen: its echo from the network changes nothing.
pub proof fn own_messages_are_ignored(st: ChannelState, msg: ContentView)
    requires
        channel_wf(st),
    ensures
        received(sent(st, msg), SdsView::Content(msg)) == (
            sent(st, msg),
            Seq::<ContentView>::empty(),
        ),
{
    no_false_negatives(st.filter, msg.message_id);
}

/// The newest entry of the next causal history is the message that was sent or
/// delivered last, and the history never carries more entries than configured.
pub proof fn history_is_newest_first(st: ChannelState, id: Seq<char>, time: u64)
    requires
        channel_wf(st),
    ensures
        causal_history(settled(st, id, time)).len() <= st.config.causal_history_size,
        st.config.causal_history_size > 0 ==> {
            &&& causal_history(settled(st, id, time)).len() > 0
            &&& causal_history(settled(st, id, time))[0] == (EntryView {
                message_id: id,
                lamport_timestamp: time,
                retrieval_hint: None,
            })
        },
{
}

/// Two messages in a row: the second names the first as its newest dependency,
/// so nobody who has not seen the first delivers the second.
pub proof fn later_message_waits_for_earlier(
    st: ChannelState,
    first: Seq<u8>,
    second: Seq<u8>,
    other: Seq<u8>,
)
    requires
        channel_wf(st),
        st.config.causal_history_size > 0,
        !holds(other, next_content(st, first).message_id),
    ensures
        !satisfied(
            other,
            next_content(
                sent(ticked(st), next_content(st, first)),
                second,
            ).causal_history,
        ),
{
    let m = next_content(st, first);
    let st2 = sent(ticked(st), m);
    history_is_newest_first(ticked(st), m.message_id, m.lamport_timestamp);
    let h = causal_history(st2);
    assert(h == causal_history(settled(ticked(st), m.message_id, m.lamport_timestamp)));
    assert(h[0].message_id == m.message_id);
}

/// The same payload gets the same id whoever sends it and whenever.
pub proof fn same_payload_same_id(a: ChannelState, b: ChannelState, payload: Seq<u8>)
    ensures
        next_content(a, payload).message_id == next_content(b, payload).message_id,
{
}

// ---- acknowledgements ----

/// Bytes that are no filter leave the outgoing messages alone.
pub proof fn malformed_filter_is_ignored(st: ChannelState, remote: Seq<u8>)
    requires
        remote.len() != BLOOM_BYTES,
    ensures
        credited(st, remote) == st,
{
}

/// The count of an id so far.
pub open spec fn count_of(acks: Seq<(Seq<char>, u32)>, id: Seq<char>) -> int {
    match lookup(acks, id) {
        Some(n) => n as int,
        None => 0,
    }
}

/// A message is acknowledged by this filter: it is held, and with that hit its
/// count reaches the threshold.
pub open spec fn acknowledged(
    acks: Seq<(Seq<char>, u32)>,
    remote: Seq<u8>,
    threshold: u32,
    msg: ContentView,
) -> bool {
    holds(remote, msg.message_id) && count_of(acks, msg.message_id) + 1 >= threshold
}

/// Implicit acknowledgement: where no two outgoing messages share an id, a filter
/// removes exactly the messages it holds whose count reaches the threshold, keeps
/// all others in order, and raises the count of each held message that stays by
/// one.
pub proof fn implicit_acknowledgement(
    outgoing: Seq<ContentView>,
    acks: Seq<(Seq<char>, u32)>,
    remote: Seq<u8>,
    threshold: u32,
)
    requires
        counts_ok(acks, threshold),
        distinct_ids(outgoing),
    ensures
        credit_all(outgoing, acks, remote, threshold).0 == outgoing.filter(
            |m: ContentView| !acknowledged(acks, remote, threshold, m),
        ),
        forall|i: int|
            0 <= i < outgoing.len() ==> count_of(
                credit_all(outgoing, acks, remote, threshold).1,
                (#[trigger] outgoing[i]).message_id,
            ) == if acknowledged(acks, remote, threshold, outgoing[i]) {
                0
            } else if holds(remote, outgoing[i].message_id) {
                count_of(acks, outgoing[i].message_id) + 1
            } else {
                count_of(acks, outgoing[i].message_id)
            },
        forall|id: Seq<char>|
            !has_id(outgoing, id) ==> #[trigger] count_of(
                credit_all(outgoing, acks, remote, threshold).1,
                id,
            ) == count_of(acks, id),
    decreases outgoing.len(),
{
    reveal(Seq::filter);
    let stays = |m: ContentView| !acknowledged(acks, remote, threshold, m);
    if outgoing.len() > 0 {
        let head = outgoing.drop_last();
        let msg = outgoing.last();
        let id = msg.message_id;
        assert forall|i: int, j: int|
            0 <= i < head.len() && 0 <= j < head.len() && (#[trigger] head[i]).message_id == (
            #[trigger] head[j]).message_id implies i == j by {
            assert(outgoing[i].message_id == outgoing[j].message_id);
        }
        implicit_acknowledgement(head, acks, remote, threshold);
        credit_all_keeps_counts(head, acks, remote, threshold);
        let before = credit_all(head, acks, remote, threshold);
        let after = credit_all(outgoing, acks, remote, threshold);
        assert(!has_id(head, id)) by {
            if has_id(head, id) {
                let i = choose|i: int| 0 <= i < head.len() && (#[trigger] head[i]).message_id == id;
                assert(outgoing[i] == head[i]);
                assert(outgoing[outgoing.len() - 1].message_id == id);
            }
        }
        assert(count_of(before.1, id) == count_of(acks, id));
        let count = count_of(before.1, id) + 1;
        if has_key(before.1, id) {
            place_is_unique(before.1, place_of(before.1, id));
        }
        remove_then_look(before.1, id);
        put_then_look(before.1, id, count as u32);
        assert forall|other: Seq<char>| other != id implies #[trigger] count_of(after.1, other)
            == count_of(before.1, other) by {}
        assert forall|i: int| 0 <= i < outgoing.len() implies count_of(
            after.1,
            (#[trigger] outgoing[i]).message_id,
        ) == if acknowledged(acks, remote, threshold, outgoing[i]) {
            0
        } else if holds(remote, outgoing[i].message_id) {
            count_of(acks, outgoing[i].message_id) + 1
        } else {
            count_of(acks, outgoing[i].message_id)
        } by {
            if i < head.len() {
                assert(head[i] == outgoing[i]);
                assert(outgoing[outgoing.len() - 1].message_id == id);
                assert(outgoing[i].message_id != id);
            }
        }
        assert forall|other: Seq<char>| !has_id(outgoing, other) implies #[trigger] count_of(
            after.1,
            other,
        ) == count_of(acks, other) by {
            assert(outgoing[outgoing.len() - 1].message_id == id);
            assert(other != id);
            if has_id(head, other) {
                let i = choose|i: int|
                    0 <= i < head.len() && (#[trigger] head[i]).message_id == other;
                assert(outgoing[i].message_id == other);
            }
        }
        assert(after.0 =~= outgoing.filter(stays));
    }
}

proof fn filter_keeps_distinct(list: Seq<ContentView>, keep: spec_fn(ContentView) -> bool)
    requires
        distinct_ids(list),
    ensures
        distinct_ids(list.filter(keep)),
        forall|m: ContentView| #[trigger]
            list.filter(keep).contains(m) <==> list.contains(m) && keep(m),
        forall|id: Seq<char>|
            #[trigger] has_id(list.filter(keep), id) ==> has_id(list, id),
    decreases list.len(),
{
    reveal(Seq::filter);
    if list.len() > 0 {
        let head = list.drop_last();
        let msg = list.last();
        assert forall|i: int, j: int|
            0 <= i < head.len() && 0 <= j < head.len() && (#[trigger] head[i]).message_id == (
            #[trigger] head[j]).message_id implies i == j by {
            assert(list[i].message_id == list[j].message_id);
        }
        filter_keeps_distinct(head, keep);
        let kept = head.filter(keep);
        let all = list.filter(keep);
        assert(list[list.len() - 1] == msg);
        assert(!has_id(head, msg.message_id)) by {
            if has_id(head, msg.message_id) {
                let i = choose|i: int|
                    0 <= i < head.len() && (#[trigger] head[i]).message_id == msg.message_id;
                assert(list[i] == head[i]);
            }
        }
        assert(all == if keep(msg) {
            kept.push(msg)
        } else {
            kept
        });
        assert forall|i: int, j: int|
            0 <= i < all.len() && 0 <= j < all.len() && (#[trigger] all[i]).message_id == (
            #[trigger] all[j]).message_id implies i == j by {
            if i < kept.len() && j < kept.len() {
                assert(kept[i].message_id == kept[j].message_id);
            } else if i < kept.len() {
                assert(kept[i].message_id == msg.message_id);
                assert(has_id(kept, msg.message_id));
            } else if j < kept.len() {
                assert(kept[j].message_id == msg.message_id);
                assert(has_id(kept, msg.message_id));
            }
        }
        assert forall|m: ContentView| #[trigger] all.contains(m) <==> list.contains(m) && keep(m) by {
            if all.contains(m) {
                let k = choose|k: int| 0 <= k < all.len() && all[k] == m;
                if k < kept.len() {
                    assert(kept[k] == m);
                    assert(kept.contains(m));
                    let h = choose|h: int| 0 <= h < head.len() && head[h] == m;
                    assert(list[h] == m);
                }
            }
            if list.contains(m) && keep(m) {
                let h = choose|h: int| 0 <= h < list.len() && list[h] == m;
                if h < head.len() {
                    assert(head[h] == m);
                    assert(kept.contains(m));
                    let k = choose|k: int| 0 <= k < kept.len() && kept[k] == m;
                    assert(all[k] == m);
                } else {
                    assert(all[all.len() - 1] == m);
                }
            }
        }
        assert forall|id: Seq<char>| #[trigger] has_id(all, id) implies has_id(list, id) by {
            let k = choose|k: int| 0 <= k < all.len() && (#[trigger] all[k]).message_id == id;
            assert(all.contains(all[k]));
            let h = choose|h: int| 0 <= h < list.len() && list[h] == all[k];
            assert(list[h].message_id == id);
        }
    }
}

/// The state after the filters of other participants were seen one after another.
pub open spec fn credited_run(st: ChannelState, remotes: Seq<Seq<u8>>) -> ChannelState
    decreases remotes.len(),
{
    if remotes.len() == 0 {
        st
    } else {
        credited(credited_run(st, remotes.drop_last()), remotes.last())
    }
}

/// How many of some filters hold an id. Bytes that are no filter hold none.
pub open spec fn hits(remotes: Seq<Seq<u8>>, id: Seq<char>) -> nat
    decreases remotes.len(),
{
    if remotes.len() == 0 {
        0
    } else {
        hits(remotes.drop_last(), id) + if remotes.last().len() == BLOOM_BYTES && holds(
            remotes.last(),
            id,
        ) {
            1nat
        } else {
            0nat
        }
    }
}

/// Whether the table of counts stays within its ceiling at every filter of a run,
/// so that it is never emptied.
pub open spec fn never_overgrown(st: ChannelState, remotes: Seq<Seq<u8>>) -> bool
    decreases remotes.len(),
{
    remotes.len() == 0 || {
        let before = credited_run(st, remotes.drop_last());
        &&& never_overgrown(st, remotes.drop_last())
        &&& credit_all(
            before.outgoing,
            before.acks,
            remotes.last(),
            st.config.possible_acks_threshold,
        ).1.len() <= POSSIBLE_ACKS_MAX
    }
}

/// Whether a message has been held by too few filters so far to be acknowledged:
/// those counted before and those of a run.
pub open spec fn unacknowledged(st: ChannelState, remotes: Seq<Seq<u8>>, msg: ContentView) -> bool {
    count_of(st.acks, msg.message_id) + hits(remotes, msg.message_id)
        < st.config.possible_acks_threshold
}

proof fn filter_twice(
    list: Seq<ContentView>,
    p: spec_fn(ContentView) -> bool,
    q: spec_fn(ContentView) -> bool,
    r: spec_fn(ContentView) -> bool,
)
    requires
        forall|i: int| 0 <= i < list.len() ==> r(#[trigger] list[i]) == (p(list[i]) && q(list[i])),
    ensures
        list.filter(p).filter(q) == list.filter(r),
    decreases list.len(),
{
    reveal(Seq::filter);
    if list.len() > 0 {
        let head = list.drop_last();
        assert forall|i: int| 0 <= i < head.len() implies r(#[trigger] head[i]) == (p(head[i]) && q(
            head[i],
        )) by {
            assert(list[i] == head[i]);
        }
        filter_twice(head, p, q, r);
        assert(list[list.len() - 1] == list.last());
        let kept = head.filter(p);
        assert(kept.push(list.last()).drop_last() =~= kept);
    } else {
        assert(list.filter(p).filter(q) =~= list.filter(r));
    }
}

/// Implicit acknowledgement over many filters, some of which hold a message and
/// some do not, and some of which are no filters at all. A message leaves at
/// exactly the filter with which as many have held it as the threshold asks for;
/// until then it stays, in its order, and each filter that held it is counted.
pub proof fn acknowledged_at_the_threshold(st: ChannelState, remotes: Seq<Seq<u8>>)
    requires
        channel_wf(st),
        distinct_ids(st.outgoing),
        st.config.possible_acks_threshold >= 1,
        never_overgrown(st, remotes),
    ensures
        channel_wf(credited_run(st, remotes)),
        credited_run(st, remotes) == (ChannelState {
            outgoing: st.outgoing.filter(|m: ContentView| unacknowledged(st, remotes, m)),
            acks: credited_run(st, remotes).acks,
            ..st
        }),
        forall|i: int|
            0 <= i < st.outgoing.len() ==> count_of(
                credited_run(st, remotes).acks,
                (#[trigger] st.outgoing[i]).message_id,
            ) == if unacknowledged(st, remotes, st.outgoing[i]) {
                count_of(st.acks, st.outgoing[i].message_id) + hits(
                    remotes,
                    st.outgoing[i].message_id,
                )
            } else {
                0
            },
        forall|id: Seq<char>|
            !has_id(st.outgoing, id) ==> #[trigger] count_of(credited_run(st, remotes).acks, id)
                == count_of(st.acks, id),
    decreases remotes.len(),
{
    let stays = |m: ContentView| unacknowledged(st, remotes, m);
    if remotes.len() == 0 {
        assert forall|i: int| 0 <= i < st.outgoing.len() implies unacknowledged(
            st,
            remotes,
            #[trigger] st.outgoing[i],
        ) by {
            count_is_below(st.acks, st.config.possible_acks_threshold, st.outgoing[i].message_id);
        }
        filter_all(st.outgoing, stays);
    } else {
        let head = remotes.drop_last();
        let remote = remotes.last();
        let threshold = st.config.possible_acks_threshold;
        let stayed = |m: ContentView| unacknowledged(st, head, m);
        acknowledged_at_the_threshold(st, head);
        let before = credited_run(st, head);
        let after = credited_run(st, remotes);
        credited_keeps_wf(before, remote);
        filter_keeps_distinct(st.outgoing, stayed);
        if remote.len() != BLOOM_BYTES {
            assert forall|i: int| 0 <= i < st.outgoing.len() implies stays(
                #[trigger] st.outgoing[i],
            ) == (stayed(st.outgoing[i]) && stayed(st.outgoing[i])) by {}
            filter_twice(st.outgoing, stayed, stayed, stays);
            filter_twice(st.outgoing, stayed, stayed, stayed);
        } else {
            implicit_acknowledgement(before.outgoing, before.acks, remote, threshold);
            let remains = |m: ContentView| !acknowledged(before.acks, remote, threshold, m);
            assert forall|i: int| 0 <= i < st.outgoing.len() implies stays(
                #[trigger] st.outgoing[i],
            ) == (stayed(st.outgoing[i]) && remains(st.outgoing[i])) by {}
            filter_twice(st.outgoing, stayed, remains, stays);
            assert forall|i: int| 0 <= i < st.outgoing.len() implies count_of(
                after.acks,
                (#[trigger] st.outgoing[i]).message_id,
            ) == if unacknowledged(st, remotes, st.outgoing[i]) {
                count_of(st.acks, st.outgoing[i].message_id) + hits(
                    remotes,
                    st.outgoing[i].message_id,
                )
            } else {
                0
            } by {
                let m = st.outgoing[i];
                assert(st.outgoing.contains(m));
                if stayed(m) {
                    assert(before.outgoing.contains(m));
                    let k = choose|k: int| 0 <= k < before.outgoing.len() && before.outgoing[k] == m;
                    assert(before.outgoing[k].message_id == m.message_id);
                } else if has_id(before.outgoing, m.message_id) {
                    let k = choose|k: int|
                        0 <= k < before.outgoing.len() && (
                        #[trigger] before.outgoing[k]).message_id == m.message_id;
                    assert(before.outgoing.contains(before.outgoing[k]));
                    let h = choose|h: int|
                        0 <= h < st.outgoing.len() && st.outgoing[h] == before.outgoing[k];
                    assert(st.outgoing[h].message_id == st.outgoing[i].message_id);
                }
            }
            assert forall|id: Seq<char>| !has_id(st.outgoing, id) implies #[trigger] count_of(
                after.acks,
                id,
            ) == count_of(st.acks, id) by {
                assert(!has_id(before.outgoing, id));
            }
        }
    }
}

/// Whether the counted ids and those of the outgoing messages are all in a set.
spec fn ids_in(
    outgoing: Seq<ContentView>,
    acks: Seq<(Seq<char>, u32)>,
    ids: Set<Seq<char>>,
) -> bool {
    &&& forall|i: int| 0 <= i < outgoing.len() ==> ids.contains((#[trigger] outgoing[i]).message_id)
    &&& forall|i: int| 0 <= i < acks.len() ==> ids.contains((#[trigger] acks[i]).0)
}

proof fn credit_all_adds_no_ids(
    outgoing: Seq<ContentView>,
    acks: Seq<(Seq<char>, u32)>,
    remote: Seq<u8>,
    threshold: u32,
    ids: Set<Seq<char>>,
)
    requires
        ids_in(outgoing, acks, ids),
    ensures
        ids_in(
            credit_all(outgoing, acks, remote, threshold).0,
            credit_all(outgoing, acks, remote, threshold).1,
            ids,
        ),
    decreases outgoing.len(),
{
    if outgoing.len() > 0 {
        let head = outgoing.drop_last();
        let id = outgoing.last().message_id;
        assert forall|i: int| 0 <= i < head.len() implies ids.contains(
            (#[trigger] head[i]).message_id,
        ) by {
            assert(outgoing[i] == head[i]);
        }
        credit_all_adds_no_ids(head, acks, remote, threshold, ids);
        assert(outgoing[outgoing.len() - 1].message_id == id);
        let before = credit_all(head, acks, remote, threshold);
        let after = credit_all(outgoing, acks, remote, threshold);
        assert forall|i: int| 0 <= i < after.1.len() implies ids.contains((#[trigger] after.1[i]).0) by {
            if has_key(before.1, id) {
                let p = place_of(before.1, id);
                if after.1.len() < before.1.len() {
                    assert(after.1[i] == before.1[if i < p { i } else { i + 1 }]);
                } else if i != p {
                    assert(after.1[i] == before.1[i]);
                }
            } else if i < before.1.len() {
                assert(after.1[i] == before.1[i]);
            }
        }
    }
}

proof fn few_ids_few_counts(
    outgoing: Seq<ContentView>,
    acks: Seq<(Seq<char>, u32)>,
    ids: Set<Seq<char>>,
)
    requires
        ids.finite(),
        ids_in(outgoing, acks, ids),
        distinct_keys(acks),
    ensures
        acks.len() <= ids.len(),
{
    let keys = Seq::new(acks.len(), |i: int| acks[i].0);
    assert(keys.no_duplicates()) by {
        assert forall|i: int, j: int| 0 <= i < keys.len() && 0 <= j < keys.len() && i != j implies keys[i]
            != keys[j] by {
            assert(acks[i].0 == keys[i] && acks[j].0 == keys[j]);
        }
    }
    keys.unique_seq_to_set();
    assert(keys.to_set().subset_of(ids)) by {
        assert forall|id: Seq<char>| keys.to_set().contains(id) implies ids.contains(id) by {
            let i = choose|i: int| 0 <= i < keys.len() && keys[i] == id;
            assert(acks[i].0 == id);
        }
    }
    vstd::set_lib::lemma_len_subset(keys.to_set(), ids);
}

proof fn run_adds_no_ids(st: ChannelState, remotes: Seq<Seq<u8>>, ids: Set<Seq<char>>)
    requires
        channel_wf(st),
        ids.finite(),
        ids.len() <= POSSIBLE_ACKS_MAX,
        ids_in(st.outgoing, st.acks, ids),
    ensures
        channel_wf(credited_run(st, remotes)),
        credited_run(st, remotes).config == st.config,
        ids_in(credited_run(st, remotes).outgoing, credited_run(st, remotes).acks, ids),
        never_overgrown(st, remotes),
    decreases remotes.len(),
{
    if remotes.len() > 0 {
        let remote = remotes.last();
        let threshold = st.config.possible_acks_threshold;
        run_adds_no_ids(st, remotes.drop_last(), ids);
        let before = credited_run(st, remotes.drop_last());
        credited_keeps_wf(before, remote);
        credit_all_adds_no_ids(before.outgoing, before.acks, remote, threshold, ids);
        credit_all_keeps_counts(before.outgoing, before.acks, remote, threshold);
        let after = credit_all(before.outgoing, before.acks, remote, threshold);
        few_ids_few_counts(after.0, after.1, ids);
    }
}

/// The table of counts is never emptied as long as the ids that are counted and
/// those of the outgoing messages together do not exceed its ceiling: no filter
/// adds an id to them.
pub proof fn few_ids_never_overgrow(st: ChannelState, remotes: Seq<Seq<u8>>)
    requires
        channel_wf(st),
        st.acks.len() + st.outgoing.len() <= POSSIBLE_ACKS_MAX,
    ensures
        never_overgrown(st, remotes),
{
    let counted = Seq::new(st.acks.len(), |i: int| st.acks[i].0);
    let waiting = Seq::new(st.outgoing.len(), |i: int| st.outgoing[i].message_id);
    let ids = counted.to_set().union(waiting.to_set());
    vstd::seq_lib::seq_to_set_is_finite(counted);
    vstd::seq_lib::seq_to_set_is_finite(waiting);
    counted.lemma_cardinality_of_set();
    waiting.lemma_cardinality_of_set();
    vstd::set_lib::lemma_len_union(counted.to_set(), waiting.to_set());
    assert forall|i: int| 0 <= i < st.acks.len() implies ids.contains((#[trigger] st.acks[i]).0) by {
        assert(counted[i] == st.acks[i].0);
        assert(counted.contains(counted[i]));
    }
    assert forall|i: int| 0 <= i < st.outgoing.len() implies ids.contains(
        (#[trigger] st.outgoing[i]).message_id,
    ) by {
        assert(waiting[i] == st.outgoing[i].message_id);
        assert(waiting.contains(waiting[i]));
    }
    run_adds_no_ids(st, remotes, ids);
}

proof fn count_is_below(acks: Seq<(Seq<char>, u32)>, threshold: u32, id: Seq<char>)
    requires
        counts_ok(acks, threshold),
        threshold >= 1,
    ensures
        count_of(acks, id) < threshold,
{
    if has_key(acks, id) {
        place_is_unique(acks, place_of(acks, id));
    }
}

proof fn filter_all(list: Seq<ContentView>, keep: spec_fn(ContentView) -> bool)
    requires
        forall|i: int| 0 <= i < list.len() ==> keep(#[trigger] list[i]),
    ensures
        list.filter(keep) == list,
    decreases list.len(),
{
    reveal(Seq::filter);
    if list.len() > 0 {
        let head = list.drop_last();
        assert forall|i: int| 0 <= i < head.len() implies keep(#[trigger] head[i]) by {
            assert(list[i] == head[i]);
        }
        filter_all(head, keep);
        assert(list[list.len() - 1] == list.last());
        assert(head.push(list.last()) =~= list);
    } else {
        assert(list.filter(keep) =~= list);
    }
}

/// Whoever delivered a message acknowledges it with every sync message from then
/// on: the filter in it holds the message.
pub proof fn delivery_is_acknowledged(
    st: ChannelState,
    msg: SdsView,
    delivered: ContentView,
    asked: Seq<EntryView>,
)
    requires
        channel_wf(st),
        received(st, msg).1.contains(delivered),
    ensures
        next_sync(received(st, msg).0, asked).bloom_filter is Some,
        holds(
            next_sync(received(st, msg).0, asked).bloom_filter->0,
            delivered.message_id,
        ),
{
    delivered_is_seen(st, msg);
    let out = received(st, msg).1;
    let i = choose|i: int| 0 <= i < out.len() && out[i] == delivered;
    assert(holds(received(st, msg).0.filter, out[i].message_id));
}

// ---- repair ----

/// A message that was sent can be sent again on request, as long as it waits for
/// an acknowledgement.
pub proof fn sent_can_be_sent_again(st: ChannelState, msg: ContentView)
    requires
        !has_id(st.outgoing, msg.message_id),
    ensures
        to_resend(
            sent(st, msg).outgoing,
            seq![
                EntryView {
                    message_id: msg.message_id,
                    lamport_timestamp: msg.lamport_timestamp,
                    retrieval_hint: None,
                },
            ],
        ) == seq![msg],
{
    let asked = seq![
        EntryView {
            message_id: msg.message_id,
            lamport_timestamp: msg.lamport_timestamp,
            retrieval_hint: None,
        },
    ];
    let after = sent(st, msg).outgoing;
    assert(after[after.len() - 1] == msg);
    assert forall|i: int| 0 <= i < after.len() - 1 implies (#[trigger] after[i]).message_id
        != msg.message_id by {
        let k = if st.outgoing.len() >= OUTGOING_BUFFER_MAX {
            i + 1
        } else {
            i
        };
        assert(after[i] == st.outgoing[k]);
    }
    last_is_first_with_id(after, msg.message_id);
    let none = Seq::<EntryView>::empty();
    assert(asked.drop_last() =~= none);
    assert(to_resend(after, none) =~= Seq::<ContentView>::empty());
    assert(to_resend(after, asked) =~= seq![msg]);
}

proof fn last_is_first_with_id(list: Seq<ContentView>, id: Seq<char>)
    requires
        list.len() > 0,
        list[list.len() - 1].message_id == id,
        forall|i: int| 0 <= i < list.len() - 1 ==> (#[trigger] list[i]).message_id != id,
    ensures
        first_with_id(list, id) == Some(list[list.len() - 1]),
    decreases list.len(),
{
    if list.len() > 1 {
        assert(list[0].message_id != id);
        let rest = list.drop_first();
        assert forall|i: int| 0 <= i < rest.len() - 1 implies (#[trigger] rest[i]).message_id
            != id by {
            assert(rest[i] == list[i + 1]);
        }
        last_is_first_with_id(rest, id);
    }
}

/// There is something to ask for exactly where a dependency was not seen.
pub proof fn repair_asks_for_what_is_missing(filter: Seq<u8>, history: Seq<EntryView>)
    ensures
        missing(filter, history).len() == 0 <==> satisfied(filter, history),
    decreases history.len(),
{
    reveal(Seq::filter);
    if history.len() > 0 {
        repair_asks_for_what_is_missing(filter, history.drop_last());
        if satisfied(filter, history) {
            assert forall|i: int| 0 <= i < history.drop_last().len() implies holds(
                filter,
                (#[trigger] history.drop_last()[i]).message_id,
            ) by {
                assert(history[i] == history.drop_last()[i]);
            }
            assert(history[history.len() - 1] == history.last());
        } else if satisfied(filter, history.drop_last()) {
            assert forall|i: int| 0 <= i < history.len() - 1 implies holds(
                filter,
                (#[trigger] history[i]).message_id,
            ) by {
                assert(history[i] == history.drop_last()[i]);
            }
        }
    }
}

/// The repair requests for a list are those for its first part, then those for the
/// rest: nothing is left out and the order is kept.
proof fn missing_joins(filter: Seq<u8>, earlier: Seq<EntryView>, later: Seq<EntryView>)
    ensures
        missing(filter, earlier + later) == missing(filter, earlier) + missing(filter, later),
    decreases later.len(),
{
    reveal(Seq::filter);
    if later.len() == 0 {
        assert(earlier + later =~= earlier);
        assert(missing(filter, earlier) + missing(filter, later) =~= missing(filter, earlier));
    } else {
        missing_joins(filter, earlier, later.drop_last());
        assert((earlier + later).drop_last() =~= earlier + later.drop_last());
        assert((earlier + later).last() == later.last());
        assert(missing(filter, earlier + later) =~= missing(filter, earlier) + missing(
            filter,
            later,
        ));
    }
}

/// Repair asks for every message of a history that was not seen, as often as the
/// history names it and in its order, and for no other: an entry is asked for
/// exactly where the filter does not hold it, whatever stands before and after it.
pub proof fn repair_asks_for_every_missing_message(
    filter: Seq<u8>,
    earlier: Seq<EntryView>,
    entry: EntryView,
    later: Seq<EntryView>,
)
    ensures
        missing(filter, Seq::<EntryView>::empty()) == Seq::<EntryView>::empty(),
        missing(filter, earlier + later) == missing(filter, earlier) + missing(filter, later),
        holds(filter, entry.message_id) ==> missing(filter, earlier + seq![entry] + later)
            == missing(filter, earlier) + missing(filter, later),
        !holds(filter, entry.message_id) ==> missing(filter, earlier + seq![entry] + later)
            == missing(filter, earlier) + seq![entry] + missing(filter, later),
        missing(filter, earlier + seq![entry] + later).contains(entry) <==> !holds(
            filter,
            entry.message_id,
        ),
        forall|i: int|
            0 <= i < missing(filter, earlier).len() ==> !holds(
                filter,
                (#[trigger] missing(filter, earlier)[i]).message_id,
            ) && earlier.contains(missing(filter, earlier)[i]),
{
    let one = seq![entry];
    let all = earlier + one + later;
    missing_joins(filter, earlier, later);
    missing_joins(filter, earlier, one);
    missing_joins(filter, earlier + one, later);
    missing_members(filter, earlier);
    missing_members(filter, all);
    reveal(Seq::filter);
    assert(missing(filter, Seq::<EntryView>::empty()) =~= Seq::<EntryView>::empty());
    assert(one.drop_last() =~= Seq::<EntryView>::empty());
    if holds(filter, entry.message_id) {
        assert(missing(filter, one) =~= Seq::<EntryView>::empty());
        assert(missing(filter, earlier) + missing(filter, one) =~= missing(filter, earlier));
        if missing(filter, all).contains(entry) {
            let k = choose|k: int|
                0 <= k < missing(filter, all).len() && missing(filter, all)[k] == entry;
            assert(!holds(filter, missing(filter, all)[k].message_id));
        }
    } else {
        assert(missing(filter, one) =~= one);
        assert(missing(filter, all)[missing(filter, earlier).len() as int] == entry);
    }
}

proof fn missing_members(filter: Seq<u8>, history: Seq<EntryView>)
    ensures
        forall|i: int|
            0 <= i < missing(filter, history).len() ==> !holds(
                filter,
                (#[trigger] missing(filter, history)[i]).message_id,
            ) && history.contains(missing(filter, history)[i]),
    decreases history.len(),
{
    reveal(Seq::filter);
    if history.len() > 0 {
        let head = history.drop_last();
        missing_members(filter, head);
        assert forall|i: int| 0 <= i < missing(filter, history).len() implies !holds(
            filter,
            (#[trigger] missing(filter, history)[i]).message_id,
        ) && history.contains(missing(filter, history)[i]) by {
            if i < missing(filter, head).len() {
                assert(missing(filter, history)[i] == missing(filter, head)[i]);
                let k = choose|k: int| 0 <= k < head.len() && head[k] == missing(filter, head)[i];
                assert(history[k] == head[k]);
            } else {
                assert(history[history.len() - 1] == history.last());
            }
        }
    }
}

/// Requests are answered one by one, in their order. A request is answered with a
/// message that waits for its acknowledgement under the id that is asked for, the
/// oldest such message, and goes unanswered exactly where there is none.
pub proof fn every_request_is_answered(
    outgoing: Seq<ContentView>,
    earlier: Seq<EntryView>,
    request: EntryView,
    later: Seq<EntryView>,
)
    ensures
        to_resend(outgoing, earlier + later) == to_resend(outgoing, earlier) + to_resend(
            outgoing,
            later,
        ),
        to_resend(outgoing, earlier + seq![request] + later) == to_resend(outgoing, earlier)
            + to_resend(outgoing, seq![request]) + to_resend(outgoing, later),
        to_resend(outgoing, seq![request]).len() == 0 <==> forall|i: int|
            0 <= i < outgoing.len() ==> (#[trigger] outgoing[i]).message_id != request.message_id,
        to_resend(outgoing, seq![request]).len() > 0 ==> exists|i: int|
            {
                &&& 0 <= i < outgoing.len()
                &&& (#[trigger] outgoing[i]).message_id == request.message_id
                &&& to_resend(outgoing, seq![request]) == seq![outgoing[i]]
                &&& forall|j: int|
                    0 <= j < i ==> (#[trigger] outgoing[j]).message_id != request.message_id
            },
{
    resending_joins(outgoing, earlier, later);
    resending_joins(outgoing, earlier, seq![request]);
    resending_joins(outgoing, earlier + seq![request], later);
    first_with_id_is_first(outgoing, request.message_id);
    let none = Seq::<EntryView>::empty();
    assert(seq![request].drop_last() =~= none);
    assert(to_resend(outgoing, none) =~= Seq::<ContentView>::empty());
    if let Some(msg) = first_with_id(outgoing, request.message_id) {
        assert(to_resend(outgoing, seq![request]) =~= seq![msg]);
    } else {
        assert(to_resend(outgoing, seq![request]) =~= Seq::<ContentView>::empty());
    }
}

proof fn resending_joins(
    outgoing: Seq<ContentView>,
    earlier: Seq<EntryView>,
    later: Seq<EntryView>,
)
    ensures
        to_resend(outgoing, earlier + later) == to_resend(outgoing, earlier) + to_resend(
            outgoing,
            later,
        ),
    decreases later.len(),
{
    if later.len() == 0 {
        assert(earlier + later =~= earlier);
        assert(to_resend(outgoing, earlier) + to_resend(outgoing, later) =~= to_resend(
            outgoing,
            earlier,
        ));
    } else {
        resending_joins(outgoing, earlier, later.drop_last());
        assert((earlier + later).drop_last() =~= earlier + later.drop_last());
        assert((earlier + later).last() == later.last());
        assert(to_resend(outgoing, earlier + later) =~= to_resend(outgoing, earlier) + to_resend(
            outgoing,
            later,
        ));
    }
}

proof fn first_with_id_is_first(list: Seq<ContentView>, id: Seq<char>)
    ensures
        first_with_id(list, id) is None <==> forall|i: int|
            0 <= i < list.len() ==> (#[trigger] list[i]).message_id != id,
        first_with_id(list, id) is Some ==> exists|i: int|
            {
                &&& 0 <= i < list.len()
                &&& (#[trigger] list[i]).message_id == id
                &&& first_with_id(list, id) == Some(list[i])
                &&& forall|j: int| 0 <= j < i ==> (#[trigger] list[j]).message_id != id
            },
    decreases list.len(),
{
    if list.len() > 0 {
        if list[0].message_id == id {
            assert(first_with_id(list, id) == Some(list[0]));
        } else {
            let rest = list.drop_first();
            first_with_id_is_first(rest, id);
            assert forall|i: int| 0 <= i < rest.len() implies #[trigger] rest[i] == list[i + 1] by {}
            if first_with_id(rest, id) is Some {
                let i = choose|i: int|
                    {
                        &&& 0 <= i < rest.len()
                        &&& (#[trigger] rest[i]).message_id == id
                        &&& first_with_id(rest, id) == Some(rest[i])
                        &&& forall|j: int| 0 <= j < i ==> (#[trigger] rest[j]).message_id != id
                    };
                assert(list[i + 1].message_id == id);
                assert forall|j: int| 0 <= j < i + 1 implies (#[trigger] list[j]).message_id != id by {
                    if j > 0 {
                        assert(rest[j - 1] == list[j]);
                    }
                }
            } else {
                assert forall|i: int| 0 <= i < list.len() implies (#[trigger] list[i]).message_id
                    != id by {
                    if i > 0 {
                        assert(rest[i - 1] == list[i]);
                    }
                }
            }
        }
    }
}

// ---- what a channel sends and keeps ----

/// The causal history grows at its front: once a message is settled, the next
/// message names it first, then what was named before, as far as the configured
/// size goes. What was named before keeps its order.
pub proof fn the_causal_history_grows_at_the_front(st: ChannelState, id: Seq<char>, time: u64)
    requires
        channel_wf(st),
    ensures
        causal_history(settled(st, id, time)) == (seq![
            EntryView { message_id: id, lamport_timestamp: time, retrieval_hint: None },
        ] + causal_history(st)).take(
            if causal_history(st).len() < st.config.causal_history_size {
                causal_history(st).len() as int + 1
            } else {
                st.config.causal_history_size as int
            },
        ),
{
    let entry = EntryView { message_id: id, lamport_timestamp: time, retrieval_hint: None };
    let after = settled(st, id, time);
    let n = st.config.causal_history_size as nat;
    let grown = st.history.push(entry);
    assert(causal_history(after).len() == if grown.len() <= n {
        grown.len()
    } else {
        n
    });
    assert(causal_history(after) =~= (seq![entry] + causal_history(st)).take(
        if causal_history(st).len() < n {
            causal_history(st).len() as int + 1
        } else {
            n as int
        },
    ));
}

/// A content message says what is sent, by whom and on which channel, at a time
/// after all that its sender has seen, and carries what its sender has seen.
pub proof fn a_sent_message_speaks_for_its_sender(st: ChannelState, payload: Seq<u8>)
    ensures
        next_content(st, payload).content == payload,
        next_content(st, payload).sender_id == st.sender_id,
        next_content(st, payload).channel_id == st.channel_id,
        st.clock < u64::MAX ==> next_content(st, payload).lamport_timestamp == st.clock + 1,
        next_content(st, payload).bloom_filter is Some,
        forall|id: Seq<char>|
            holds(next_content(st, payload).bloom_filter->0, id) <==> #[trigger] holds(
                st.filter,
                id,
            ),
        next_content(st, payload).repair_request.len() == 0,
        hex_bytes(next_content(st, payload).message_id) == sha256_of(payload),
        ticked(st).clock == next_content(st, payload).lamport_timestamp,
        ticked(st).filter == st.filter,
        ticked(st).history == st.history,
        ticked(st).outgoing == st.outgoing,
        ticked(st).incoming == st.incoming,
        ticked(st).acks == st.acks,
{
    hex_round_trip(sha256_of(payload));
}

/// A sync message asks for what it is told to ask for, and carries what its sender
/// has seen: its filter, and the same history as a content message at that time.
pub proof fn a_sync_message_speaks_for_its_sender(
    st: ChannelState,
    asked: Seq<EntryView>,
    payload: Seq<u8>,
)
    ensures
        next_sync(st, asked).repair_request == asked,
        next_sync(st, asked).sender_id == st.sender_id,
        next_sync(st, asked).channel_id == st.channel_id,
        st.clock < u64::MAX ==> next_sync(st, asked).lamport_timestamp == st.clock + 1,
        next_sync(st, asked).bloom_filter is Some,
        forall|id: Seq<char>|
            holds(next_sync(st, asked).bloom_filter->0, id) <==> #[trigger] holds(st.filter, id),
        next_sync(st, asked).causal_history == next_content(st, payload).causal_history,
        st.clock < u64::MAX ==> hex_bytes(next_sync(st, asked).message_id) == sha256_of(
            vstd::bytes::spec_u64_to_le_bytes((st.clock + 1) as u64),
        ),
{
    hex_round_trip(sha256_of(vstd::bytes::spec_u64_to_le_bytes(tick(st.clock))));
}

/// A message that was sent waits for its acknowledgement behind those that were
/// sent before, of which only the oldest goes, and only where 256 wait already. It
/// is seen from then on, and nothing else about the channel changes.
pub proof fn a_sent_message_waits(st: ChannelState, msg: ContentView)
    requires
        channel_wf(st),
    ensures
        st.outgoing.len() < 256 ==> sent(st, msg).outgoing == st.outgoing.push(msg),
        st.outgoing.len() == 256 ==> sent(st, msg).outgoing == st.outgoing.drop_first().push(msg),
        holds(sent(st, msg).filter, msg.message_id),
        sent(st, msg).incoming == st.incoming,
        sent(st, msg).acks == st.acks,
        sent(st, msg).clock == st.clock,
        st.config.causal_history_size > 0 ==> sent(st, msg).history.last() == (EntryView {
            message_id: msg.message_id,
            lamport_timestamp: msg.lamport_timestamp,
            retrieval_hint: None,
        }),
{
    no_false_negatives(st.filter, msg.message_id);
    assert(st.outgoing.len() > 0 ==> st.outgoing.remove(0) =~= st.outgoing.drop_first());
}

/// No channel ever keeps more than 256 waiting messages in either direction, counts
/// more than 1024 ids, or remembers more than twice the configured history.
pub proof fn a_channel_stays_bounded(st: ChannelState, msgs: Seq<SdsView>)
    requires
        channel_wf(st),
    ensures
        run(st, msgs).0.incoming.len() <= 256,
        run(st, msgs).0.outgoing.len() <= 256,
        run(st, msgs).0.acks.len() <= 1024,
        run(st, msgs).0.history.len() <= 2 * st.config.causal_history_size,
{
    run_without_repeats(st, msgs);
    run_keeps_identity(st, msgs);
}

/// Whatever comes in, a channel keeps its name, its participant and its settings.
pub proof fn run_keeps_identity(st: ChannelState, msgs: Seq<SdsView>)
    requires
        channel_wf(st),
    ensures
        run(st, msgs).0.channel_id == st.channel_id,
        run(st, msgs).0.sender_id == st.sender_id,
        run(st, msgs).0.config == st.config,
    decreases msgs.len(),
{
    if msgs.len() > 0 {
        run_without_repeats(st, msgs.drop_last());
        run_keeps_identity(st, msgs.drop_last());
        let before = run(st, msgs.drop_last()).0;
        received_pieces(before, msgs.last());
        resolve_keeps_wf(before_resolving(before, msgs.last()));
    }
}

// ---- what receiving does besides delivering ----

/// The filter that an unseen message carries counts towards the acknowledgement of
/// what was sent, whatever kind of message it is; one that was seen before, or
/// carries no filter, counts for nothing.
pub proof fn every_unseen_filter_counts(st: ChannelState, msg: SdsView)
    requires
        channel_wf(st),
    ensures
        holds(st.filter, msg.message_id()) || msg.bloom_filter() is None ==> {
            &&& received(st, msg).0.outgoing == st.outgoing
            &&& received(st, msg).0.acks == st.acks
        },
        !holds(st.filter, msg.message_id()) && msg.bloom_filter() is Some ==> {
            &&& received(st, msg).0.outgoing == credited(st, msg.bloom_filter()->0).outgoing
            &&& received(st, msg).0.acks == credited(st, msg.bloom_filter()->0).acks
        },
{
    received_pieces(st, msg);
    resolve_keeps_wf(before_resolving(st, msg));
}

/// An ephemeral message is neither delivered nor remembered but for its id: it
/// leaves the clock, the history and the waiting messages alone.
pub proof fn ephemeral_messages_leave_no_trace(st: ChannelState, msg: SdsView)
    requires
        channel_wf(st),
        msg is Ephemeral,
    ensures
        received(st, msg).1.len() == 0,
        received(st, msg).0.clock == st.clock,
        received(st, msg).0.history == st.history,
        received(st, msg).0.incoming == st.incoming,
        holds(received(st, msg).0.filter, msg.message_id()),
{
    received_pieces(st, msg);
    no_false_negatives(st.filter, msg.message_id());
}

/// A sync message delivers nothing of its own and loses nothing: what waited before
/// is what waits afterwards together with what was delivered. It is seen from then
/// on.
pub proof fn sync_messages_lose_nothing(st: ChannelState, msg: SdsView)
    requires
        channel_wf(st),
        msg is Sync,
    ensures
        st.incoming.to_multiset() =~= received(st, msg).0.incoming.to_multiset().add(
            received(st, msg).1.to_multiset(),
        ),
        holds(received(st, msg).0.filter, msg.message_id()),
{
    broadcast use vstd::seq_lib::group_to_multiset_ensures;

    received_pieces(st, msg);
    no_false_negatives(st.filter, msg.message_id());
    delivered_is_seen(st, msg);
    if !holds(st.filter, msg.message_id()) {
        let b = before_resolving(st, msg);
        resolve_conserves(b);
        resolve_in_causal_order(b);
        with_messages_remembers(b.filter, resolve(b).1);
        assert(delivered_at_once(st, msg) + resolve(b).1 =~= resolve(b).1);
    }
}

/// With 256 messages waiting, one more that has to wait takes the place of the
/// oldest, and of no other.
pub proof fn a_full_buffer_drops_its_oldest(st: ChannelState, content: ContentView)
    requires
        channel_wf(st),
        st.incoming.len() == 256,
        !holds(st.filter, content.message_id),
        !has_id(st.incoming, content.message_id),
        !satisfied(st.filter, content.causal_history),
    ensures
        st.incoming.drop_first().push(content).to_multiset() =~= received(
            st,
            SdsView::Content(content),
        ).0.incoming.to_multiset().add(
            received(st, SdsView::Content(content)).1.to_multiset(),
        ),
{
    broadcast use vstd::seq_lib::group_to_multiset_ensures;

    let msg = SdsView::Content(content);
    received_pieces(st, msg);
    let b = before_resolving(st, msg);
    resolve_conserves(b);
    assert(st.incoming.remove(0) =~= st.incoming.drop_first());
    assert(delivered_at_once(st, msg) + resolve(b).1 =~= resolve(b).1);
}

/// With fewer than 256 messages waiting, a message that has to wait is lost to no
/// other and takes the place of none.
pub proof fn there_is_room_for_256(st: ChannelState, content: ContentView)
    requires
        channel_wf(st),
        st.incoming.len() < 256,
        !holds(st.filter, content.message_id),
        !has_id(st.incoming, content.message_id),
    ensures
        st.incoming.push(content).to_multiset() =~= received(
            st,
            SdsView::Content(content),
        ).0.incoming.to_multiset().add(
            received(st, SdsView::Content(content)).1.to_multiset(),
        ),
{
    nothing_lost(st, content);
}

/// The history after messages were settled in order.
pub open spec fn remembered(st: ChannelState, list: Seq<ContentView>) -> Seq<EntryView>
    decreases list.len(),
{
    if list.len() == 0 {
        st.history
    } else {
        recorded(
            remembered(st, list.drop_last()),
            list.last().message_id,
            list.last().lamport_timestamp,
            st.config.causal_history_size,
        )
    }
}

proof fn remembered_joins(st: ChannelState, mid: ChannelState, a: Seq<ContentView>, b: Seq<ContentView>)
    requires
        mid.history == remembered(st, a),
        mid.config == st.config,
    ensures
        remembered(st, a + b) == remembered(mid, b),
    decreases b.len(),
{
    if b.len() == 0 {
        assert(a + b =~= a);
    } else {
        remembered_joins(st, mid, a, b.drop_last());
        assert((a + b).drop_last() =~= a + b.drop_last());
        assert((a + b).last() == b.last());
    }
}

proof fn walk_remembers(st: ChannelState, waiting: Seq<ContentView>)
    requires
        channel_wf(st),
    ensures
        walk(st, waiting).state.history == remembered(st, walk(st, waiting).delivered),
    decreases waiting.len(),
{
    walk_keeps_wf(st, waiting);
    if waiting.len() > 0 {
        walk_remembers(st, waiting.drop_last());
        walk_keeps_wf(st, waiting.drop_last());
        let p = walk(st, waiting.drop_last());
        assert(p.delivered.push(waiting.last()).drop_last() =~= p.delivered);
    }
}

proof fn resolve_remembers(st: ChannelState)
    requires
        channel_wf(st),
    ensures
        resolve(st).0.history == remembered(st, resolve(st).1),
    decreases st.incoming.len(),
{
    walk_remembers(st, st.incoming);
    walk_keeps_wf(st, st.incoming);
    walk_without_repeats(st, st.incoming);
    let p = walk(st, st.incoming);
    if p.delivered.len() > 0 {
        let next = ChannelState { incoming: p.waiting, ..p.state };
        resolve_remembers(next);
        remembered_joins(st, next, p.delivered, resolve(next).1);
    }
}

/// What was delivered enters the history in the order in which it was delivered, and
/// nothing else does: the last one delivered is the newest, and where nothing is
/// delivered the history stays as it is.
pub proof fn the_history_follows_delivery(st: ChannelState, msg: SdsView)
    requires
        channel_wf(st),
    ensures
        received(st, msg).0.history == remembered(st, received(st, msg).1),
        received(st, msg).1.len() == 0 ==> received(st, msg).0.history == st.history,
        received(st, msg).1.len() > 0 && st.config.causal_history_size > 0 ==> {
            &&& received(st, msg).0.history.len() > 0
            &&& received(st, msg).0.history.last() == (EntryView {
                message_id: received(st, msg).1.last().message_id,
                lamport_timestamp: received(st, msg).1.last().lamport_timestamp,
                retrieval_hint: None,
            })
        },
{
    received_pieces(st, msg);
    remembered_ends_with(st, received(st, msg).1);
    if !holds(st.filter, msg.message_id()) {
        let b = before_resolving(st, msg);
        at_once_remembered(st, msg);
        if !(msg is Ephemeral) {
            resolve_remembers(b);
            remembered_joins(st, b, delivered_at_once(st, msg), resolve(b).1);
        }
    }
}

proof fn remembered_ends_with(st: ChannelState, list: Seq<ContentView>)
    ensures
        list.len() == 0 ==> remembered(st, list) == st.history,
        list.len() > 0 && st.config.causal_history_size > 0 ==> remembered(st, list).len() > 0
            && remembered(st, list).last() == (EntryView {
            message_id: list.last().message_id,
            lamport_timestamp: list.last().lamport_timestamp,
            retrieval_hint: None,
        }),
{
}

proof fn at_once_remembered(st: ChannelState, msg: SdsView)
    ensures
        before_resolving(st, msg).history == remembered(st, delivered_at_once(st, msg)),
        before_resolving(st, msg).config == st.config,
{
    let first = delivered_at_once(st, msg);
    if first.len() == 1 {
        assert(first.drop_last() =~= Seq::<ContentView>::empty());
        assert(remembered(st, first.drop_last()) == st.history);
    }
}

// ---- dependencies, one by one ----

/// Nothing is delivered before what it depends on: each dependency of each message that
/// is delivered was seen before, or is delivered before it.
pub proof fn every_dependency_comes_first(st: ChannelState, msg: SdsView, k: int, i: int)
    requires
        channel_wf(st),
        0 <= k < received(st, msg).1.len(),
        0 <= i < received(st, msg).1[k].causal_history.len(),
    ensures
        holds(
            with_messages(judging_filter(st, msg), received(st, msg).1.take(k)),
            received(st, msg).1[k].causal_history[i].message_id,
        ),
{
    if !holds(st.filter, msg.message_id()) {
        delivery_is_causal(st, msg);
        assert(satisfied(
            with_messages(judging_filter(st, msg), received(st, msg).1.take(k)),
            received(st, msg).1[k].causal_history,
        ));
    }
}

/// A message of which a single dependency was not seen is not delivered at once, whatever
/// else was seen: it waits.
pub proof fn one_missing_dependency_is_enough_to_wait(
    st: ChannelState,
    content: ContentView,
    i: int,
)
    requires
        channel_wf(st),
        !holds(st.filter, content.message_id),
        st.incoming.len() == 0,
        0 <= i < content.causal_history.len(),
        !holds(st.filter, content.causal_history[i].message_id),
    ensures
        received(st, SdsView::Content(content)).1.len() == 0,
        received(st, SdsView::Content(content)).0.incoming == seq![content],
        received(st, SdsView::Content(content)).0.filter == st.filter,
{
    let msg = SdsView::Content(content);
    received_pieces(st, msg);
    assert(!satisfied(st.filter, content.causal_history));
    let b = before_resolving(st, msg);
    let empty = Seq::<ContentView>::empty();
    assert(!has_id(st.incoming, content.message_id));
    assert(b.incoming =~= seq![content]);
    assert(b.incoming.drop_last() =~= empty);
    assert(walk(b, empty).state == b);
    assert(walk(b, b.incoming).delivered =~= empty);
    assert(resolve(b) == (b, empty));
    assert(delivered_at_once(st, msg) + resolve(b).1 =~= empty);
}

/// A message of which every dependency was seen is delivered at once.
pub proof fn with_every_dependency_it_is_delivered(st: ChannelState, content: ContentView)
    requires
        channel_wf(st),
        !holds(st.filter, content.message_id),
        forall|i: int|
            0 <= i < content.causal_history.len() ==> holds(
                st.filter,
                (#[trigger] content.causal_history[i]).message_id,
            ),
    ensures
        received(st, SdsView::Content(content)).1.len() > 0,
        received(st, SdsView::Content(content)).1[0] == content,
{
    ready_messages_are_delivered(st, content);
}

/// What is left waiting waits for something: each message has a dependency that was not
/// seen.
pub proof fn whatever_waits_lacks_something(st: ChannelState, msg: SdsView, k: int)
    requires
        channel_wf(st),
        !holds(st.filter, msg.message_id()),
        !(msg is Ephemeral),
        0 <= k < received(st, msg).0.incoming.len(),
    ensures
        exists|i: int|
            0 <= i < received(st, msg).0.incoming[k].causal_history.len() && !holds(
                received(st, msg).0.filter,
                (#[trigger] received(st, msg).0.incoming[k].causal_history[i]).message_id,
            ),
{
    none_left_ready(st, msg);
}

/// Waiting messages are gone through in their order: going through two stretches is going
/// through the first and then, with what that delivered, through the second. A single
/// message is delivered where its dependencies were seen, and waits otherwise.
pub proof fn waiting_messages_take_their_turn(
    st: ChannelState,
    earlier: Seq<ContentView>,
    later: Seq<ContentView>,
    one: ContentView,
)
    requires
        st.filter.len() == BLOOM_BYTES,
    ensures
        ({
            let p = walk(st, earlier);
            let q = walk(p.state, later);
            &&& walk(st, earlier + later).state == q.state
            &&& walk(st, earlier + later).waiting == p.waiting + q.waiting
            &&& walk(st, earlier + later).delivered == p.delivered + q.delivered
        }),
        (forall|i: int|
            0 <= i < one.causal_history.len() ==> holds(
                st.filter,
                (#[trigger] one.causal_history[i]).message_id,
            )) ==> walk(st, seq![one]).delivered == seq![one] && walk(st, seq![one]).waiting.len()
            == 0 && holds(walk(st, seq![one]).state.filter, one.message_id),
        (exists|i: int|
            0 <= i < one.causal_history.len() && !holds(
                st.filter,
                (#[trigger] one.causal_history[i]).message_id,
            )) ==> walk(st, seq![one]).waiting == seq![one] && walk(st, seq![one]).delivered.len()
            == 0 && walk(st, seq![one]).state == st,
    decreases later.len(),
{
    let single = seq![one];
    let empty = Seq::<ContentView>::empty();
    assert(single.drop_last() =~= empty);
    assert(walk(st, empty).state == st);
    no_false_negatives(st.filter, one.message_id);
    assert(walk(st, single).delivered =~= if satisfied(st.filter, one.causal_history) {
        single
    } else {
        empty
    });
    assert(walk(st, single).waiting =~= if satisfied(st.filter, one.causal_history) {
        empty
    } else {
        single
    });
    let p = walk(st, earlier);
    if later.len() == 0 {
        assert(earlier + later =~= earlier);
        assert(walk(p.state, later).waiting =~= empty);
        assert(p.waiting + walk(p.state, later).waiting =~= p.waiting);
        assert(p.delivered + walk(p.state, later).delivered =~= p.delivered);
    } else {
        waiting_messages_take_their_turn(st, earlier, later.drop_last(), one);
        assert((earlier + later).drop_last() =~= earlier + later.drop_last());
        assert((earlier + later).last() == later.last());
        let q = walk(p.state, later);
        assert(walk(st, earlier + later).waiting =~= p.waiting + q.waiting);
        assert(walk(st, earlier + later).delivered =~= p.delivered + q.delivered);
    }
}

/// The clock moves by one: past its own reading when the channel sends, and past the later
/// of its own and the message's reading when a message comes in.
pub proof fn the_clock_moves_by_one(clock: u64, remote: u64)
    ensures
        clock < u64::MAX ==> tick(clock) == clock + 1,
        clock < u64::MAX && remote <= clock ==> adopt(clock, remote) == clock + 1,
        remote < u64::MAX && clock <= remote ==> adopt(clock, remote) == remote + 1,
{
}

/// A message that comes in from a channel was said before anything that its receiver
/// says afterwards.
pub proof fn answers_are_later_than_what_they_answer(
    st: ChannelState,
    content: ContentView,
    payload: Seq<u8>,
)
    requires
        channel_wf(st),
        !holds(st.filter, content.message_id),
        later(st.clock, content.lamport_timestamp) < u64::MAX - 1,
    ensures
        next_content(
            received(st, SdsView::Content(content)).0,
            payload,
        ).lamport_timestamp > content.lamport_timestamp,
        next_content(received(st, SdsView::Content(content)).0, payload).lamport_timestamp
            > st.clock,
{
    receiving_moves_the_clock(st, SdsView::Content(content));
}

} // verus!
