//! What holds of the tasks that a node sends, receives and answers.

use vstd::prelude::*;
use crate::agent::{answer, given, CardView, EnvelopeView, Task, TaskState, TaskView};
use crate::metrics::counted;
use crate::error::NodeError;
use crate::node::delegation::{
    begins, begins_all, broadcast_choice, chosen, codex_cid, collected_slot, delegation_row_of,
    first_task, fits, nobody_text, outcome_of, subtask, time_limit, Delegation,
    DelegationRequest, ResultView, SlotView, CODEX_MARK,
};
use crate::node::intake::{
    after_look_up, arrived, arrived_messages, gathering, looking, proceeding, vetting, Asked,
    InboundView, PollState,
};
use crate::node::offload::{after_encoding, encryption_key, oversized, slimmed};
use crate::node::outgoing::{
    after_exhaustion, after_retry, asks_to_encode, asks_to_send, SendAction, SendView,
};
use crate::node::payment::{
    after_check, amount_to_pay, lowercase, paid, payment_check, with_payment_seen, CheckView,
    TransferDetails,
};
use crate::node::poll::{
    after_admission, after_receipt, decrypted, extracted, noted, noted_all, polled, Decrypted,
    ExtractView, PollView,
};
use crate::node::respond::{after_response, response_row, response_state};
use crate::node::NodeState;
use crate::order::filter_joins;
use crate::sds::bloom::{holds, no_false_negatives, BLOOM_BYTES};
use crate::sds::message::{message_id_of, SdsView};
use crate::table::{distinct_keys, has_key, lookup, put_then_look};
use crate::text::{alphanumeric_start, is_ascii_alphanumeric, last_at, stands_at};
use crate::trust::TrustMode;

verus! {

// ---- getting at a task ----

/// A task that was encrypted is gone into just as one that was sent in the clear:
/// what it takes to get at its content is the same. Decrypting counts, and nothing
/// else about the node changes.
pub proof fn an_encrypted_task_is_as_good_as_a_clear_one(st: NodeState, task: Task)
    ensures
        decrypted(st, Decrypted::Opened(Ok(task))).1 == extracted(
            st,
            Some(EnvelopeView::Task(task@)),
        ),
        decrypted(st, Decrypted::Opened(Ok(task))).0.metrics.decryptions == counted(
            st.metrics.decryptions,
            1,
        ),
        decrypted(st, Decrypted::Opened(Ok(task))).0.channel == st.channel,
        decrypted(st, Decrypted::Opened(Ok(task))).0.sessions == st.sessions,
        decrypted(st, Decrypted::Opened(Ok(task))).0.trust == st.trust,
        decrypted(st, Decrypted::Opened(Ok(task))).0.seen_payments == st.seen_payments,
{
}

/// The content of a slim task is fetched under the identifier that it was stored
/// under, by every node with storage, whether the task came in the clear or was
/// decrypted.
pub proof fn slim_tasks_are_fetched_however_they_come(
    st: NodeState,
    whole: TaskView,
    cid: Seq<char>,
    slim: Task,
)
    requires
        st.offload is Some,
        slim@ == slimmed(whole, cid),
    ensures
        extracted(st, Some(EnvelopeView::Task(slimmed(whole, cid)))) == ExtractView::Fetch(cid),
        decrypted(st, Decrypted::Opened(Ok(slim))).1 == ExtractView::Fetch(cid),
{
}

/// A task that holds its content is handed out as it is, and so is any task where
/// there is no storage to fetch from, whether it came in the clear or was decrypted.
pub proof fn whole_tasks_are_handed_out(st: NodeState, task: Task)
    requires
        task@.payload_cid is None || st.offload is None,
    ensures
        extracted(st, Some(EnvelopeView::Task(task@))) == ExtractView::Ready(task@),
        decrypted(st, Decrypted::Opened(Ok(task))).1 == ExtractView::Ready(task@),
{
}

/// An encrypted task is decrypted by whoever has an identity, with the payload and
/// the sender's key that the envelope names, and skipped by whoever has none.
pub proof fn encrypted_tasks_need_an_identity(
    st: NodeState,
    nonce: Seq<char>,
    ciphertext: Seq<char>,
    sender_pubkey: Seq<char>,
)
    ensures
        extracted(
            st,
            Some(EnvelopeView::EncryptedTask { nonce, ciphertext, sender_pubkey }),
        ) == if st.identity is Some {
            ExtractView::Decrypt { nonce, ciphertext, sender_pubkey }
        } else {
            ExtractView::Skip
        },
{
}

/// What holds no task, or cannot be decrypted, is skipped: other envelopes, bytes
/// that are no envelope, and payloads that hold something else.
pub proof fn what_holds_no_task_is_skipped(
    st: NodeState,
    envelope: Option<EnvelopeView>,
    fault: String,
)
    ensures
        !(envelope is Some && (envelope->0 is Task || envelope->0 is EncryptedTask)) ==> extracted(
            st,
            envelope,
        ) == ExtractView::Skip,
        decrypted(st, Decrypted::Refused) == (st, ExtractView::Skip),
        decrypted(st, Decrypted::Opened(Err(fault))).1 == ExtractView::Skip,
{
}

// ---- taking in messages ----

/// What the channel delivers is opened first. An envelope by itself counts once: it
/// is gone into when its bytes were not seen, and is nothing new when they come
/// again.
pub proof fn an_envelope_counts_once(st: NodeState, raw: Seq<u8>)
    requires
        st.channel.filter.len() == BLOOM_BYTES,
    ensures
        !holds(st.channel.filter, message_id_of(raw)) ==> polled(st, None, raw, true).1
            == PollView::Bare,
        polled(polled(st, None, raw, true).0, None, raw, true).1 == PollView::Nothing,
        polled(st, None, raw, false) == (st, PollView::Nothing),
{
    no_false_negatives(st.channel.filter, message_id_of(raw));
}

/// Messages that the channel delivers are all handed on, in the order of delivery.
pub proof fn what_is_delivered_is_opened(
    st: NodeState,
    msg: SdsView,
    raw: Seq<u8>,
    is_envelope: bool,
)
    ensures
        crate::sds::state::received(st.channel, msg).1.len() > 0 ==> {
            &&& polled(st, Some(msg), raw, is_envelope).1 == PollView::Delivered(
                crate::sds::state::received(st.channel, msg).1,
            )
            &&& polled(st, Some(msg), raw, is_envelope).0.channel
                == crate::sds::state::received(st.channel, msg).0
        },
        polled(st, Some(msg), raw, is_envelope).0.sessions == st.sessions,
        polled(st, Some(msg), raw, is_envelope).0.peers == st.peers,
        polled(st, Some(msg), raw, is_envelope).0.metrics == st.metrics,
{
}

/// A poll opens every delivered message, one after another, before it looks at the
/// next message, and looks at the messages in their order. Nothing that was found is
/// dropped on the way.
pub proof fn a_poll_goes_through_everything(st: NodeState, p: PollState)
    ensures
        p.opening.len() > 0 ==> gathering(st, p) == (
            st,
            PollState { opening: p.opening.drop_first(), ..p },
            Asked::Open(p.opening[0]),
        ),
        p.opening.len() == 0 && p.inbox.len() > 0 ==> gathering(st, p) == looking(
            st,
            PollState { inbox: p.inbox.drop_first(), ..p },
            p.inbox[0],
        ),
        p.opening.len() == 0 && p.inbox.len() == 0 ==> gathering(st, p) == vetting(st, p),
{
}

/// A task that comes in an envelope by itself, with its content, is found: the poll
/// goes on with the task behind those found before.
pub proof fn a_task_in_an_envelope_is_found(
    st: NodeState,
    p: PollState,
    raw: Seq<u8>,
    task: TaskView,
)
    requires
        !holds(st.channel.filter, message_id_of(raw)),
        task.payload_cid is None || st.offload is None,
    ensures
        looking(
            st,
            p,
            InboundView { raw, parsed: None, envelope: Some(EnvelopeView::Task(task)) },
        ) == gathering(
            polled(st, None, raw, true).0,
            PollState { found: p.found.push(task), ..p },
        ),
{
}

/// What an envelope holds is followed up: a task is found, stored content is
/// fetched, an encrypted payload is decrypted, and the poll goes on unchanged only
/// where there is no task.
pub proof fn what_an_envelope_holds_is_followed_up(
    st: NodeState,
    p: PollState,
    task: TaskView,
    cid: Seq<char>,
    nonce: Seq<char>,
    ciphertext: Seq<char>,
    sender_pubkey: Seq<char>,
)
    ensures
        proceeding(st, p, ExtractView::Ready(task)) == gathering(
            st,
            PollState { found: p.found.push(task), ..p },
        ),
        proceeding(st, p, ExtractView::Fetch(cid)) == (st, p, Asked::Fetch(cid)),
        proceeding(st, p, ExtractView::Decrypt { nonce, ciphertext, sender_pubkey }) == (
            st,
            p,
            Asked::Decrypt { nonce, ciphertext, sender_pubkey },
        ),
        proceeding(st, p, ExtractView::Skip) == gathering(st, p),
{
}

// ---- letting tasks in ----

/// Whether a sender is let in: where the trust list is enforced, only those on it
/// are.
pub open spec fn welcome(st: NodeState, from: Seq<char>) -> bool {
    st.trust.mode != TrustMode::Enforce || exists|e: int|
        0 <= e < st.trust.entries.len() && (#[trigger] st.trust.entries[e]).pubkey == from
}

/// Where no payment is asked for, a poll hands out exactly the tasks of those that
/// are let in, all of them and in their order.
pub proof fn the_welcome_are_all_accepted(st: NodeState, p: PollState)
    requires
        st.payment is None || st.payment->0.required_amount == 0,
    ensures
        vetting(st, p).2 == Asked::Done(
            p.accepted + p.found.filter(|t: TaskView| welcome(st, t.from)),
        ),
        vetting(st, p).0.trust == st.trust,
        vetting(st, p).0.seen_payments == st.seen_payments,
    decreases p.found.len(),
{
    let keep = |t: TaskView| welcome(st, t.from);
    reveal(Seq::filter);
    if p.found.len() == 0 {
        assert(p.found.filter(keep) =~= Seq::<TaskView>::empty());
        assert(p.accepted + p.found.filter(keep) =~= p.accepted);
    } else {
        let task = p.found[0];
        let one = seq![task];
        let tail = p.found.drop_first();
        let seen = after_admission(st, task.from);
        assert(one + tail =~= p.found);
        filter_joins(one, tail, keep);
        assert(one.drop_last() =~= Seq::<TaskView>::empty());
        assert(one.drop_last().filter(keep) =~= Seq::<TaskView>::empty());
        assert(one.last() == task);
        let keep_seen = |t: TaskView| welcome(seen, t.from);
        assert(keep_seen =~= keep);
        if welcome(st, task.from) {
            let more = PollState { accepted: p.accepted.push(task), found: tail, ..p };
            the_welcome_are_all_accepted(seen, more);
            assert(one.filter(keep) =~= one);
            assert(more.accepted + tail.filter(keep) =~= p.accepted + p.found.filter(keep));
        } else {
            let rest = PollState { found: tail, ..p };
            the_welcome_are_all_accepted(seen, rest);
            assert(one.filter(keep) =~= Seq::<TaskView>::empty());
            assert(p.accepted + tail.filter(keep) =~= p.accepted + p.found.filter(keep));
        }
    }
}

/// A stranger is counted wherever the trust list is in use, and nobody is where it is
/// off; nothing else about the node changes.
pub proof fn strangers_are_counted(st: NodeState, from: Seq<char>)
    ensures
        after_admission(st, from).metrics.tasks_dropped_untrusted == if st.trust.mode
            == TrustMode::Off || exists|e: int|
            0 <= e < st.trust.entries.len() && (#[trigger] st.trust.entries[e]).pubkey == from {
            st.metrics.tasks_dropped_untrusted
        } else {
            counted(st.metrics.tasks_dropped_untrusted, 1)
        },
        after_admission(st, from).trust == st.trust,
        after_admission(st, from).payment == st.payment,
        after_admission(st, from).seen_payments == st.seen_payments,
        after_admission(st, from).metrics.tasks_received == st.metrics.tasks_received,
{
}

/// What is asked in payment: nothing where no payment is set up or the amount is
/// zero. Otherwise a task without a transfer, or with one that was used before, is
/// rejected; where transfers are looked up, the one that the task names is; and where
/// claims are believed, exactly those that claim enough are accepted.
pub proof fn what_is_asked_in_payment(st: NodeState, task: TaskView)
    ensures
        st.payment is None ==> payment_check(st, task) == CheckView::Accept,
        st.payment is Some ==> {
            let cfg = st.payment->0;
            let tx = task.payment_tx->0;
            let fresh = task.payment_tx is Some && tx.len() > 0 && !st.seen_payments.contains(tx);
            &&& cfg.required_amount == 0 ==> payment_check(st, task) == CheckView::Accept
            &&& cfg.required_amount > 0 && !fresh ==> payment_check(st, task) == CheckView::Reject
            &&& cfg.required_amount > 0 && fresh && cfg.verify_on_chain ==> payment_check(st, task)
                == CheckView::LookUp(tx)
            &&& cfg.required_amount > 0 && fresh && !cfg.verify_on_chain ==> (payment_check(
                st,
                task,
            ) == CheckView::Accept <==> task.payment_amount is Some && task.payment_amount->0
                >= cfg.required_amount)
            &&& cfg.required_amount > 0 && fresh && !cfg.verify_on_chain ==> !(payment_check(
                st,
                task,
            ) is LookUp)
        },
{
}

/// Only an accepted payment is used up, and only where one was asked for.
pub proof fn only_accepted_payments_are_used_up(st: NodeState, task: TaskView, tx: Seq<char>)
    ensures
        after_check(st, task).seen_payments.contains(tx) <==> st.seen_payments.contains(tx) || (
        st.payment is Some && st.payment->0.required_amount > 0 && payment_check(st, task)
            == CheckView::Accept && task.payment_tx == Some(tx)),
        with_payment_seen(st, tx).seen_payments.contains(tx),
        after_check(st, task).trust == st.trust,
        after_check(st, task).payment == st.payment,
        after_check(st, task).sessions == st.sessions,
        after_check(st, task).metrics == st.metrics,
{
    let used = task.payment_tx->0;
    let seen = st.seen_payments;
    assert forall|x: Seq<char>, y: Seq<char>| #[trigger]
        seen.push(x).contains(y) <==> seen.contains(y) || x == y by {
        if seen.contains(y) {
            let i = choose|i: int| 0 <= i < seen.len() && seen[i] == y;
            assert(seen.push(x)[i] == y);
        }
        assert(seen.push(x)[seen.len() as int] == x);
        if seen.push(x).contains(y) {
            let i = choose|i: int| 0 <= i < seen.push(x).len() && seen.push(x)[i] == y;
            if i < seen.len() {
                assert(seen[i] == y);
            }
        }
    }
    assert(seen.push(tx).contains(tx));
    assert(seen.push(used).contains(tx) <==> seen.contains(tx) || used == tx);
}

/// A task whose transfer was looked up is accepted exactly where the transfer was
/// found, moved at least what is asked, and went to the account that is asked for,
/// if one is, whatever the case of its letters. Its payment is then used up.
pub proof fn a_transfer_must_pay(
    st: NodeState,
    p: PollState,
    task: TaskView,
    tx: Seq<char>,
    transfer: Result<TransferDetails, String>,
)
    requires
        st.payment is Some,
    ensures
        transfer is Ok && transfer->Ok_0.amount >= st.payment->0.required_amount && (
        st.payment->0.receiving_account.len() == 0 || lowercase(transfer->Ok_0.to@) == lowercase(
            st.payment->0.receiving_account,
        )) ==> after_look_up(st, p, task, tx, transfer) == vetting(
            with_payment_seen(st, tx),
            PollState { accepted: p.accepted.push(task), ..p },
        ),
        transfer is Err || transfer->Ok_0.amount < st.payment->0.required_amount || (
        st.payment->0.receiving_account.len() > 0 && lowercase(transfer->Ok_0.to@) != lowercase(
            st.payment->0.receiving_account,
        )) ==> after_look_up(st, p, task, tx, transfer) == vetting(st, p),
{
}

/// Whatever a poll hands out without looking at the chain was found in it, came from
/// somebody who is let in, and where payment is asked for names a transfer and claims
/// enough. A look-up is for a task that was found, of the transfer that it names.
pub proof fn a_poll_hands_out_only_what_passes(st: NodeState, p: PollState)
    ensures
        forall|t: TaskView| #[trigger]
            vetting(st, p).1.accepted.contains(t) && !p.accepted.contains(t) ==> {
                &&& p.found.contains(t)
                &&& welcome(st, t.from)
                &&& st.payment is Some && st.payment->0.required_amount > 0 ==> {
                    &&& t.payment_tx is Some
                    &&& t.payment_tx->0.len() > 0
                    &&& t.payment_amount is Some
                    &&& t.payment_amount->0 >= st.payment->0.required_amount
                }
            },
        vetting(st, p).2 is LookUp ==> {
            &&& p.found.contains(vetting(st, p).2->LookUp_0)
            &&& vetting(st, p).2->LookUp_0.payment_tx == Some(vetting(st, p).2->LookUp_1)
            &&& welcome(st, vetting(st, p).2->LookUp_0.from)
            &&& st.payment is Some && st.payment->0.verify_on_chain
        },
        vetting(st, p).2 is Done ==> vetting(st, p).2->Done_0 == vetting(st, p).1.accepted,
    decreases p.found.len(),
{
    if p.found.len() > 0 {
        let task = p.found[0];
        let rest = PollState { found: p.found.drop_first(), ..p };
        let seen = after_admission(st, task.from);
        assert(p.found.contains(task));
        assert forall|t: TaskView| #[trigger] rest.found.contains(t) implies p.found.contains(
            t,
        ) by {
            let k = choose|k: int| 0 <= k < rest.found.len() && rest.found[k] == t;
            assert(p.found[k + 1] == t);
        }
        assert forall|from: Seq<char>| welcome(seen, from) == welcome(st, from) by {}
        if !welcome(st, task.from) {
            a_poll_hands_out_only_what_passes(seen, rest);
        } else {
            match payment_check(seen, task) {
                CheckView::Accept => {
                    let more = PollState { accepted: p.accepted.push(task), ..rest };
                    let after = after_check(seen, task);
                    assert forall|from: Seq<char>| welcome(after, from) == welcome(st, from) by {}
                    a_poll_hands_out_only_what_passes(after, more);
                    assert forall|t: TaskView| #[trigger] more.accepted.contains(t) implies t == task
                        || p.accepted.contains(t) by {
                        let k = choose|k: int|
                            0 <= k < more.accepted.len() && more.accepted[k] == t;
                        if k < p.accepted.len() {
                            assert(p.accepted[k] == t);
                        }
                    }
                },
                CheckView::Reject => a_poll_hands_out_only_what_passes(seen, rest),
                CheckView::LookUp(_) => {},
            }
        }
    }
}

// ---- sessions of received tasks ----

/// An accepted task is noted in the session that it names: afterwards the session is
/// known under that identifier and has the task as its newest or among those it had.
/// A session that was not known begins with the sender and is counted. Other
/// sessions are as they were, and a task without a session changes nothing.
pub proof fn accepted_tasks_join_their_session(st: NodeState, task: TaskView, now: u64)
    requires
        distinct_keys(st.sessions),
    ensures
        task.session_id is None ==> noted(st, task, now) == st,
        task.session_id is Some ==> {
            let sid = task.session_id->0;
            let after = noted(st, task, now);
            let s = lookup(after.sessions, sid);
            &&& s is Some
            &&& s->0.task_ids.contains(task.id)
            &&& s->0.last_seen == now
            &&& has_key(st.sessions, sid) ==> {
                &&& s->0.peer == lookup(st.sessions, sid)->0.peer
                &&& s->0.id == lookup(st.sessions, sid)->0.id
                &&& after.metrics == st.metrics
            }
            &&& !has_key(st.sessions, sid) ==> {
                &&& s->0.peer == task.from
                &&& s->0.id == sid
                &&& s->0.created_at == now
                &&& s->0.task_ids == seq![task.id]
                &&& after.metrics.sessions_created == counted(st.metrics.sessions_created, 1)
            }
            &&& forall|other: Seq<char>|
                other != sid ==> #[trigger] lookup(after.sessions, other) == lookup(
                    st.sessions,
                    other,
                )
        },
{
    if let Some(sid) = task.session_id {
        if has_key(st.sessions, sid) {
            let s = lookup(st.sessions, sid)->0;
            let t = crate::session::with_task(s, task.id, now);
            put_then_look(st.sessions, sid, t);
            noted_task_is_there(s, task.id, now);
        } else {
            let s = crate::session::begun(sid, task.from, now);
            let t = crate::session::with_task(s, task.id, now);
            put_then_look(st.sessions, sid, t);
            noted_task_is_there(s, task.id, now);
            assert(t.task_ids =~= seq![task.id]);
        }
    }
}

proof fn noted_task_is_there(s: crate::session::SessionView, id: Seq<char>, now: u64)
    ensures
        crate::session::with_task(s, id, now).task_ids.contains(id),
{
    let out = crate::session::with_task(s, id, now).task_ids;
    if !s.task_ids.contains(id) {
        assert(out[out.len() - 1] == id);
    }
}

// ---- sending ----

/// A task is encrypted exactly where the sender has an identity and the recipient's
/// card names a key, and then under that key.
pub proof fn both_sides_need_a_key(
    st: NodeState,
    card: CardView,
    key: Seq<char>,
    version: Seq<char>,
)
    ensures
        card.intro_bundle == Some((key, version)) ==> encryption_key(st, Some(card))
            == if st.identity is Some {
            Some(key)
        } else {
            None
        },
        card.intro_bundle is None ==> encryption_key(st, Some(card)) is None,
        encryption_key(st, None) is None,
{
}

/// A payload goes to storage exactly where offloading is on and the payload is larger
/// than the threshold: one of just that size travels whole.
pub proof fn only_larger_payloads_are_offloaded(st: NodeState, len: nat)
    ensures
        st.offload is None ==> !oversized(st, len),
        st.offload is Some ==> (oversized(st, len) <==> len >= st.offload->0 + 1),
{
}

/// A slim task names where its content is and holds none of it, neither of the
/// message nor of the result; whether there is a result, and who speaks, stays.
pub proof fn a_slim_task_holds_no_content(task: TaskView, cid: Seq<char>)
    ensures
        slimmed(task, cid).payload_cid == Some(cid),
        slimmed(task, cid).message.parts.len() == 0,
        slimmed(task, cid).message.role == task.message.role,
        slimmed(task, cid).result is Some <==> task.result is Some,
        task.result is Some ==> slimmed(task, cid).result->0.parts.len() == 0
            && slimmed(task, cid).result->0.role == task.result->0.role,
{
}

/// A task is paid for exactly where that is set up with an amount, and the proof of
/// the payment is all that is added to the task. A receiver that asks for no more
/// than was paid and believes claims accepts it, unless the transfer was used before.
pub proof fn what_is_paid_is_accepted(
    sender: NodeState,
    receiver: NodeState,
    task: TaskView,
    tx: Seq<char>,
)
    requires
        tx.len() > 0,
    ensures
        amount_to_pay(sender) is Some <==> sender.payment is Some && sender.payment->0.auto_pay
            && sender.payment->0.auto_pay_amount > 0,
        amount_to_pay(sender) is Some ==> amount_to_pay(sender)->0
            == sender.payment->0.auto_pay_amount,
        amount_to_pay(sender) is Some && receiver.payment is Some
            && !receiver.payment->0.verify_on_chain && receiver.payment->0.required_amount
            <= amount_to_pay(sender)->0 && !receiver.seen_payments.contains(tx) ==> payment_check(
            receiver,
            paid(task, tx, amount_to_pay(sender)->0),
        ) == CheckView::Accept,
        forall|amount: u64|
            {
                let p = #[trigger] paid(task, tx, amount);
                &&& p.id == task.id
                &&& p.from == task.from
                &&& p.to == task.to
                &&& p.state == task.state
                &&& p.message == task.message
                &&& p.result == task.result
                &&& p.payload_cid == task.payload_cid
                &&& p.session_id == task.session_id
                &&& p.payment_tx == Some(tx)
                &&& p.payment_amount == Some(amount)
            },
{
}

// ---- answering ----

/// A response goes back to who sent the task, says the text, and is completed or
/// failed as told.
pub proof fn a_response_says_how_it_went(task: TaskView, text: Seq<char>, failed: bool)
    ensures
        ({
            let response = answer(task, text, response_state(failed));
            &&& response.id == task.id
            &&& response.to == task.from
            &&& response.from == task.to
            &&& response.message == task.message
            &&& response.session_id == task.session_id
            &&& response.result is Some
            &&& response.result->0.parts == seq![text]
            &&& response.state == TaskState::Failed <==> failed
            &&& response.state == TaskState::Completed <==> !failed
            &&& response.payload_cid is None
        }),
{
}

/// A task that was just given goes to its recipient with its text, and nothing has
/// come of it yet.
pub proof fn a_given_task_is_submitted(
    id: Seq<char>,
    from: Seq<char>,
    to: Seq<char>,
    text: Seq<char>,
    session_id: Option<Seq<char>>,
)
    ensures
        ({
            let task = given(id, from, to, text, session_id);
            &&& task.id == id
            &&& task.from == from
            &&& task.to == to
            &&& task.message.parts == seq![text]
            &&& task.session_id == session_id
            &&& task.state == TaskState::Submitted
            &&& task.result is None
            &&& task.payload_cid is None
            &&& task.payment_tx is None
            &&& task.payment_amount is None
        }),
{
}

/// Who delegates gets back what the peer answered: the text of a failed task is the
/// error, the text of any other is the result, and never both.
pub proof fn an_answer_is_the_result(
    request: DelegationRequest,
    peer: Seq<char>,
    task: TaskView,
    text: Seq<char>,
    state: TaskState,
    elapsed_ms: u64,
    limit_secs: u64,
)
    ensures
        outcome_of(
            request,
            peer,
            task.id,
            elapsed_ms,
            limit_secs,
            seq![answer(task, text, state)],
        ) == Some(
            ResultView {
                parent_task_id: request.parent_task_id@,
                subtask_id: task.id,
                agent_id: peer,
                result_text: if state == TaskState::Failed {
                    None
                } else {
                    Some(text)
                },
                success: state != TaskState::Failed,
                error: if state == TaskState::Failed {
                    Some(text)
                } else {
                    None
                },
            },
        ),
{
    let list = seq![answer(task, text, state)];
    assert(list[0].id == task.id);
    assert(first_task(list, task.id) == Some(list[0]));
}

/// A response without a result has no text, neither as the result nor as the error.
pub proof fn without_a_result_there_is_no_text(
    request: DelegationRequest,
    peer: Seq<char>,
    response: TaskView,
    elapsed_ms: u64,
    limit_secs: u64,
)
    requires
        response.result is None,
    ensures
        ({
            let res = outcome_of(
                request,
                peer,
                response.id,
                elapsed_ms,
                limit_secs,
                seq![response],
            );
            &&& res is Some
            &&& res->0.result_text is None
            &&& res->0.error is None
            &&& res->0.success <==> response.state != TaskState::Failed
        }),
{
    let list = seq![response];
    assert(list[0].id == response.id);
    assert(first_task(list, response.id) == Some(list[0]));
}

/// The response to a subtask is the first received task under its identifier,
/// wherever it stands among the others; there is none exactly where no received task
/// has that identifier.
pub proof fn the_response_has_the_subtasks_id(list: Seq<TaskView>, id: Seq<char>)
    ensures
        first_task(list, id) is None <==> forall|i: int|
            0 <= i < list.len() ==> (#[trigger] list[i]).id != id,
        first_task(list, id) is Some ==> exists|i: int|
            {
                &&& 0 <= i < list.len()
                &&& (#[trigger] list[i]).id == id
                &&& first_task(list, id) == Some(list[i])
                &&& forall|j: int| 0 <= j < i ==> (#[trigger] list[j]).id != id
            },
    decreases list.len(),
{
    if list.len() > 0 {
        if list[0].id == id {
            assert(first_task(list, id) == Some(list[0]));
        } else {
            let rest = list.drop_first();
            the_response_has_the_subtasks_id(rest, id);
            assert forall|i: int| 0 <= i < rest.len() implies #[trigger] rest[i] == list[i + 1] by {}
            if first_task(rest, id) is Some {
                let i = choose|i: int|
                    {
                        &&& 0 <= i < rest.len()
                        &&& (#[trigger] rest[i]).id == id
                        &&& first_task(rest, id) == Some(rest[i])
                        &&& forall|j: int| 0 <= j < i ==> (#[trigger] rest[j]).id != id
                    };
                assert(list[i + 1].id == id);
                assert forall|j: int| 0 <= j < i + 1 implies (#[trigger] list[j]).id != id by {
                    if j > 0 {
                        assert(rest[j - 1] == list[j]);
                    }
                }
            } else {
                assert forall|i: int| 0 <= i < list.len() implies (#[trigger] list[i]).id != id by {
                    if i > 0 {
                        assert(rest[i - 1] == list[i]);
                    }
                }
            }
        }
    }
}

/// A delegation waits as long as its request says, or half a minute where the request
/// names no time; it has timed out from that moment on and not before.
pub proof fn a_delegation_waits_as_long_as_asked(
    request: DelegationRequest,
    peer: Seq<char>,
    id: Seq<char>,
    elapsed_ms: u64,
)
    ensures
        request.timeout_secs > 0 ==> time_limit(request.timeout_secs) == request.timeout_secs,
        request.timeout_secs == 0 ==> time_limit(request.timeout_secs) == 30,
        elapsed_ms < 1000 * time_limit(request.timeout_secs) ==> outcome_of(
            request,
            peer,
            id,
            elapsed_ms,
            time_limit(request.timeout_secs),
            seq![],
        ) is None,
        elapsed_ms >= 1000 * time_limit(request.timeout_secs) ==> outcome_of(
            request,
            peer,
            id,
            elapsed_ms,
            time_limit(request.timeout_secs),
            seq![],
        ) == Some(
            ResultView {
                parent_task_id: request.parent_task_id@,
                subtask_id: id,
                agent_id: peer,
                result_text: None,
                success: false,
                error: Some("delegation timed out"@),
            },
        ),
{
}

/// A subtask goes from the delegating agent to the peer with the text of the request,
/// in the session of the request where that names one.
pub proof fn a_subtask_says_what_is_asked(
    from: Seq<char>,
    request: DelegationRequest,
    peer: Seq<char>,
    id: Seq<char>,
)
    ensures
        ({
            let task = subtask(from, request, peer, id);
            &&& task.id == id
            &&& task.from == from
            &&& task.to == peer
            &&& task.message.parts == seq![request.subtask_text@]
            &&& request.session_id is Some && request.session_id->0@.len() > 0
                ==> task.session_id == Some(request.session_id->0@)
            &&& request.session_id is None || request.session_id->0@.len() == 0
                ==> task.session_id is None
        }),
{
}

// ---- what is written down ----

/// The content identifier of a text is what stands behind its last mark: letters and
/// digits up to the first other character or the end, whatever stands before the
/// mark.
pub proof fn the_trailing_reference_counts(
    before: Seq<char>,
    cid: Seq<char>,
    rest: Seq<char>,
)
    requires
        forall|i: int| 0 <= i < cid.len() ==> is_ascii_alphanumeric(#[trigger] cid[i]),
        rest.len() == 0 || !is_ascii_alphanumeric(rest[0]),
        forall|i: int|
            i > before.len() ==> !stands_at(before + CODEX_MARK@ + cid + rest, CODEX_MARK@, i),
    ensures
        codex_cid(before + CODEX_MARK@ + cid + rest) == cid,
{
    let body = before + CODEX_MARK@ + cid + rest;
    let at = before.len() as int;
    assert(body.subrange(at, at + CODEX_MARK@.len()) =~= CODEX_MARK@);
    assert(stands_at(body, CODEX_MARK@, at));
    assert(last_at(body, CODEX_MARK@, at));
    let found = choose|i: int| last_at(body, CODEX_MARK@, i);
    assert(found == at);
    assert(body.skip(at + CODEX_MARK@.len()) =~= cid + rest);
    letters_end_there(cid, rest);
}

proof fn letters_end_there(cid: Seq<char>, rest: Seq<char>)
    requires
        forall|i: int| 0 <= i < cid.len() ==> is_ascii_alphanumeric(#[trigger] cid[i]),
        rest.len() == 0 || !is_ascii_alphanumeric(rest[0]),
    ensures
        alphanumeric_start(cid + rest) == cid,
    decreases cid.len(),
{
    let all = cid + rest;
    if cid.len() == 0 {
        assert(all =~= rest);
        assert(alphanumeric_start(all) =~= cid);
    } else {
        assert(all[0] == cid[0]);
        assert(all.drop_first() =~= cid.drop_first() + rest);
        assert forall|i: int| 0 <= i < cid.drop_first().len() implies is_ascii_alphanumeric(
            #[trigger] cid.drop_first()[i],
        ) by {
            assert(cid[i + 1] == cid.drop_first()[i]);
        }
        letters_end_there(cid.drop_first(), rest);
        assert(seq![cid[0]] + cid.drop_first() =~= cid);
    }
}

/// A text without the mark refers to nothing.
pub proof fn without_a_mark_there_is_no_reference(body: Seq<char>)
    requires
        forall|i: int| !stands_at(body, CODEX_MARK@, i),
    ensures
        codex_cid(body) == ""@,
{
}

/// The row of an answered task tells of the task that was answered: who sent it, what
/// it asked, and either the answer or the error, never both.
pub proof fn a_received_row_tells_the_task(
    st: NodeState,
    task: TaskView,
    text: Seq<char>,
    failed: bool,
    elapsed_ms: u64,
    now: u64,
    written: u64,
)
    ensures
        ({
            let row = response_row(st, task, text, failed, elapsed_ms, now, written);
            &&& row.task_id == task.id
            &&& row.peer_pubkey == task.from
            &&& row.direction == "received"@
            &&& row.parent_id == ""@
            &&& row.capability == ""@
            &&& row.created_at_ms == written
            &&& row.elapsed_ms == elapsed_ms
            &&& task.message.parts.len() > 0 ==> row.text == task.message.parts[0]
            &&& task.session_id is Some ==> row.session_id == task.session_id->0
            &&& task.session_id is None ==> row.session_id == ""@
            &&& row.success <==> !failed
            &&& failed ==> row.error == Some(text) && row.body == ""@
            &&& !failed ==> row.error is None && row.body == text
            &&& row.cid == codex_cid(row.body)
        }),
{
}

/// The row of a delegation tells what was asked of whom and what came of it: the
/// response where it succeeded, the error where it did not.
pub proof fn a_delegated_row_tells_the_delegation(
    st: NodeState,
    result: ResultView,
    request: DelegationRequest,
    elapsed_ms: u64,
    now: u64,
    written: u64,
)
    ensures
        ({
            let row = delegation_row_of(st, result, request, elapsed_ms, now, written);
            &&& row.task_id == result.subtask_id
            &&& row.parent_id == result.parent_task_id
            &&& row.peer_pubkey == result.agent_id
            &&& row.direction == "delegated"@
            &&& row.created_at_ms == written
            &&& row.elapsed_ms == elapsed_ms
            &&& row.text == request.subtask_text@
            &&& row.success == result.success
            &&& row.error == result.error
            &&& result.result_text is Some ==> row.body == result.result_text->0
            &&& result.result_text is None ==> row.body == ""@
            &&& row.cid == codex_cid(row.body)
            &&& request.session_id is Some ==> row.session_id == request.session_id->0@
            &&& request.session_id is None ==> row.session_id == ""@
            &&& request.strategy is CapabilityMatch ==> row.capability
                == request.strategy->capability@
            &&& !(request.strategy is CapabilityMatch) ==> row.capability == ""@
        }),
{
}

/// The peer of a row is named as it is known where it is live, and not at all
/// otherwise.
pub proof fn a_row_names_live_peers(
    st: NodeState,
    task: TaskView,
    text: Seq<char>,
    i: int,
    now: u64,
)
    requires
        distinct_keys(st.peers),
        0 <= i < st.peers.len(),
        st.peers[i].0 == task.from,
    ensures
        st.peers[i].1.ttl_secs > 0 && now <= st.peers[i].1.last_seen + st.peers[i].1.ttl_secs
            ==> response_row(st, task, text, false, 0, now, 0).peer_name == st.peers[i].1.name,
        st.peers[i].1.ttl_secs == 0 || now > st.peers[i].1.last_seen + st.peers[i].1.ttl_secs
            ==> response_row(st, task, text, false, 0, now, 0).peer_name == ""@,
{
    crate::table::place_is_unique(st.peers, i);
}

/// The message of a failed search for a capability names the capability, whether or
/// not the trust list had a part in it.
pub proof fn the_message_names_the_capability(
    mode: TrustMode,
    candidates: nat,
    capability: Seq<char>,
)
    ensures
        ({
            let head = "no live peers "@ + ("with capability '"@ + capability + "'"@);
            &&& nobody_text(mode, candidates, Some(capability)).len() >= head.len()
            &&& nobody_text(mode, candidates, Some(capability)).take(head.len() as int) == head
        }),
{
    let head = "no live peers "@ + ("with capability '"@ + capability + "'"@);
    assert(nobody_text(mode, candidates, Some(capability)).take(head.len() as int) =~= head);
}

// ---- one step of vetting ----

/// Each task is vetted by itself and in its turn: one that is not welcome, or is rejected
/// for its payment, is passed over; one whose payment is accepted is handed out behind
/// those before it; and one whose transfer has to be looked up stops the poll.
pub proof fn each_task_is_vetted_in_its_turn(st: NodeState, p: PollState)
    requires
        p.found.len() > 0,
    ensures
        ({
            let task = p.found[0];
            let rest = PollState { found: p.found.drop_first(), ..p };
            let seen = after_admission(st, task.from);
            &&& !welcome(st, task.from) ==> vetting(st, p) == vetting(seen, rest)
            &&& welcome(st, task.from) && payment_check(seen, task) == CheckView::Reject
                ==> vetting(st, p) == vetting(seen, rest)
            &&& welcome(st, task.from) && payment_check(seen, task) == CheckView::Accept
                ==> vetting(st, p) == vetting(
                after_check(seen, task),
                PollState { accepted: p.accepted.push(task), ..rest },
            )
            &&& welcome(st, task.from) && payment_check(seen, task) is LookUp ==> vetting(st, p)
                == (seen, rest, Asked::LookUp(task, payment_check(seen, task)->LookUp_0))
        }),
{
}

/// What the channel delivers for a message is what the poll opens next, all of it.
pub proof fn a_poll_opens_what_is_delivered(
    st: NodeState,
    p: PollState,
    msg: SdsView,
    raw: Seq<u8>,
    envelope: Option<EnvelopeView>,
)
    requires
        crate::sds::state::received(st.channel, msg).1.len() > 0,
    ensures
        looking(st, p, InboundView { raw, parsed: Some(msg), envelope }) == gathering(
            NodeState { channel: crate::sds::state::received(st.channel, msg).0, ..st },
            PollState { opening: crate::sds::state::received(st.channel, msg).1, ..p },
        ),
{
}

// ---- a finished poll ----

proof fn noting_all_counts(st: NodeState, list: Seq<TaskView>, times: Seq<u64>)
    requires
        distinct_keys(st.sessions),
    ensures
        distinct_keys(noted_all(st, list, times).sessions),
        noted_all(st, list, times).metrics.tasks_received == st.metrics.tasks_received,
        noted_all(st, list, times).trust == st.trust,
        noted_all(st, list, times).seen_payments == st.seen_payments,
        noted_all(st, list, times).channel == st.channel,
        forall|i: int|
            0 <= i < list.len() && (#[trigger] list[i]).session_id is Some ==> lookup(
                noted_all(st, list, times).sessions,
                list[i].session_id->0,
            ) is Some,
    decreases list.len(),
{
    if list.len() > 0 {
        let head = list.drop_last();
        let last = list.last();
        noting_all_counts(st, head, times);
        let before = noted_all(st, head, times);
        let now = times[list.len() - 1];
        accepted_tasks_join_their_session(before, last, now);
        let after = noted_all(st, list, times);
        if let Some(sid) = last.session_id {
            if has_key(before.sessions, sid) {
                put_then_look(
                    before.sessions,
                    sid,
                    crate::session::with_task(lookup(before.sessions, sid)->0, last.id, now),
                );
            } else {
                put_then_look(
                    before.sessions,
                    sid,
                    crate::session::with_task(
                        crate::session::begun(sid, last.from, now),
                        last.id,
                        now,
                    ),
                );
            }
        }
        assert forall|i: int|
            0 <= i < list.len() && (#[trigger] list[i]).session_id is Some implies lookup(
            after.sessions,
            list[i].session_id->0,
        ) is Some by {
            if i < head.len() {
                assert(head[i] == list[i]);
                assert(lookup(before.sessions, head[i].session_id->0) is Some);
            } else {
                assert(list[i] == last);
            }
        }
    }
}

/// A poll that is done has counted exactly the tasks that it hands out, and every one of
/// them that names a session is in a session that is known under that name.
pub proof fn a_finished_poll_has_noted_its_tasks(
    expected: (NodeState, PollState, Asked),
    st: NodeState,
    p: PollState,
    action: Asked,
)
    requires
        arrived(expected, st, p, action),
        expected.2 is Done,
        distinct_keys(expected.0.sessions),
    ensures
        action == expected.2,
        p == expected.1,
        st.metrics.tasks_received == counted(
            expected.0.metrics.tasks_received,
            action->Done_0.len(),
        ),
        st.trust == expected.0.trust,
        st.seen_payments == expected.0.seen_payments,
        st.channel == expected.0.channel,
        forall|i: int|
            0 <= i < action->Done_0.len() && (#[trigger] action->Done_0[i]).session_id is Some
                ==> lookup(st.sessions, action->Done_0[i].session_id->0) is Some,
{
    let list = expected.2->Done_0;
    let times = choose|times: Seq<u64>|
        times.len() == list.len() && st == #[trigger] noted_all(
            after_receipt(expected.0, list.len()),
            list,
            times,
        );
    noting_all_counts(after_receipt(expected.0, list.len()), list, times);
}

/// Until a poll is done, the node and the poll are exactly where the step leads.
pub proof fn an_unfinished_poll_is_where_it_should_be(
    expected: (NodeState, PollState, Asked),
    st: NodeState,
    p: PollState,
    action: Asked,
)
    requires
        arrived(expected, st, p, action),
        !(expected.2 is Done),
    ensures
        st == expected.0,
        p == expected.1,
        action == expected.2,
{
}

/// Every message that came in is counted, and nothing else changes before it is looked
/// at.
pub proof fn messages_are_counted(st: NodeState, n: nat)
    ensures
        arrived_messages(st, n).metrics.messages_received == counted(
            st.metrics.messages_received,
            n,
        ),
        arrived_messages(st, n).metrics.tasks_received == st.metrics.tasks_received,
        arrived_messages(st, n).channel == st.channel,
        arrived_messages(st, n).sessions == st.sessions,
{
}

// ---- what delegations are ----

/// A delegation is for the peer that was chosen: its task goes there, from this node, with
/// the text that was asked, and waits as long as was asked.
pub proof fn a_delegation_is_what_was_asked(
    d: Delegation,
    st: NodeState,
    request: DelegationRequest,
    peer: Seq<char>,
)
    requires
        fits(d, st, request, peer),
    ensures
        d.peer_id@ == peer,
        d.task@.to == peer,
        d.task@.from == st.card.public_key,
        d.task@.message.parts == seq![request.subtask_text@],
        d.timeout_secs == if request.timeout_secs == 0 {
            30
        } else {
            request.timeout_secs
        },
{
}

/// Delegating to one peer goes to the one that was chosen and counts one delegation; where
/// nobody can be chosen it fails with the reason and counts none.
pub proof fn one_delegation_counts_once(
    before: NodeState,
    request: DelegationRequest,
    now: u64,
    after: NodeState,
    res: Result<Delegation, NodeError>,
)
    requires
        begins(before, request, now, after, res),
    ensures
        res is Ok <==> chosen(before, request.strategy, now) is Ok,
        res is Ok ==> res->Ok_0.peer_id@ == chosen(before, request.strategy, now)->Ok_0
            && after.metrics.delegations_sent == counted(before.metrics.delegations_sent, 1),
        res is Err ==> after.metrics == before.metrics && after.round_robin == before.round_robin,
        after.trust == before.trust,
        after.sessions == before.sessions,
        !(request.strategy is RoundRobin) ==> after.round_robin == before.round_robin,
{
}

/// A broadcast makes one delegation for each of its peers, in their order, and counts each;
/// without peers it fails and counts none.
pub proof fn a_broadcast_counts_every_peer(
    before: NodeState,
    request: DelegationRequest,
    now: u64,
    after: NodeState,
    res: Result<Vec<Delegation>, NodeError>,
)
    requires
        begins_all(before, request, now, after, res),
    ensures
        ({
            let peers = broadcast_choice(before, request.strategy, now);
            &&& res is Ok <==> peers.len() > 0
            &&& res is Ok ==> {
                &&& res->Ok_0@.len() == peers.len()
                &&& after.metrics.delegations_sent == counted(
                    before.metrics.delegations_sent,
                    peers.len(),
                )
                &&& forall|k: int|
                    0 <= k < peers.len() ==> (#[trigger] res->Ok_0@[k]).peer_id@ == peers[k]
                        && res->Ok_0@[k].task@.to == peers[k]
            }
            &&& res is Err ==> after.metrics == before.metrics
        }),
        after.trust == before.trust,
        after.round_robin == before.round_robin,
{
}

/// A subtask of a broadcast that is answered has the answer for its result, however late in
/// its time the answer comes and whatever else was received before it.
pub proof fn an_answered_slot_has_its_answer(
    request: DelegationRequest,
    slot: SlotView,
    task: TaskView,
    text: Seq<char>,
    others: Seq<TaskView>,
    elapsed_ms: u64,
    limit_secs: u64,
)
    requires
        slot.result is None,
        task.id == slot.subtask_id,
        forall|i: int| 0 <= i < others.len() ==> (#[trigger] others[i]).id != slot.subtask_id,
    ensures
        collected_slot(
            request,
            slot,
            elapsed_ms,
            limit_secs,
            others.push(answer(task, text, TaskState::Completed)),
        ).result == Some(
            ResultView {
                parent_task_id: request.parent_task_id@,
                subtask_id: slot.subtask_id,
                agent_id: slot.peer_id,
                result_text: Some(text),
                success: true,
                error: None,
            },
        ),
{
    let reply = answer(task, text, TaskState::Completed);
    let all = others.push(reply);
    the_response_has_the_subtasks_id(all, slot.subtask_id);
    assert(all[others.len() as int].id == slot.subtask_id);
    let i = choose|i: int|
        {
            &&& 0 <= i < all.len()
            &&& (#[trigger] all[i]).id == slot.subtask_id
            &&& first_task(all, slot.subtask_id) == Some(all[i])
            &&& forall|j: int| 0 <= j < i ==> (#[trigger] all[j]).id != slot.subtask_id
        };
    if i < others.len() {
        assert(all[i] == others[i]);
    }
    assert(first_task(all, slot.subtask_id) == Some(reply));
}

// ---- what sends ask for and count ----

/// A payload goes out on the topic of the task's recipient, as it was made.
pub proof fn a_payload_goes_to_the_recipient(action: SendAction, run: SendView)
    requires
        asks_to_send(action, run),
    ensures
        action is Send,
        action->Send_0@ == "/lmao/1/task-"@ + run.making.task.to + "/proto"@,
        action->Send_1@ == run.payload,
{
}

/// What is to be written is the task, under the key.
pub proof fn what_is_written_is_the_task(
    action: SendAction,
    task: TaskView,
    key: Option<Seq<char>>,
)
    requires
        asks_to_encode(action, task, key),
    ensures
        action is Encode,
        action->Encode_0@ == task,
        key is None <==> action->Encode_1 is None,
        key is Some ==> action->Encode_1->0@ == key->0,
{
}

/// A retry is counted as one, and the last failure as exhausted where retries are set up, and
/// as a failed task either way.
pub proof fn retries_are_counted(st: NodeState, key: Option<Seq<char>>)
    ensures
        after_retry(st).metrics.retry_attempts == counted(st.metrics.retry_attempts, 1),
        after_retry(st).metrics.tasks_failed == st.metrics.tasks_failed,
        after_exhaustion(st).metrics.tasks_failed == counted(st.metrics.tasks_failed, 1),
        after_exhaustion(st).metrics.tasks_sent == st.metrics.tasks_sent,
        st.retry is Some ==> after_exhaustion(st).metrics.retries_exhausted == counted(
            st.metrics.retries_exhausted,
            1,
        ),
        st.retry is None ==> after_exhaustion(st).metrics.retries_exhausted
            == st.metrics.retries_exhausted,
        key is Some ==> after_encoding(st, key).metrics.encryptions == counted(
            st.metrics.encryptions,
            1,
        ),
        key is None ==> after_encoding(st, key) == st,
{
}

/// A response that went out is counted as a response and as a message.
pub proof fn responses_are_counted(st: NodeState)
    ensures
        after_response(st).metrics.responses_sent == counted(st.metrics.responses_sent, 1),
        after_response(st).metrics.messages_published == counted(
            st.metrics.messages_published,
            1,
        ),
        after_response(st).metrics.tasks_sent == st.metrics.tasks_sent,
        after_response(st).peers == st.peers,
        after_response(st).sessions == st.sessions,
{
}

/// Tasks are noted one after another, each at its own time and after those before it.
pub proof fn tasks_are_noted_one_by_one(
    st: NodeState,
    list: Seq<TaskView>,
    times: Seq<u64>,
    task: TaskView,
    now: u64,
)
    requires
        times.len() == list.len(),
    ensures
        noted_all(st, list.push(task), times.push(now)) == noted(
            noted_all(st, list, times),
            task,
            now,
        ),
        noted_all(st, Seq::empty(), Seq::empty()) == st,
{
    assert(list.push(task).drop_last() =~= list);
    noted_by_prefix(st, list, times, times.push(now));
}

proof fn noted_by_prefix(st: NodeState, list: Seq<TaskView>, a: Seq<u64>, b: Seq<u64>)
    requires
        list.len() <= a.len() <= b.len(),
        forall|i: int| 0 <= i < a.len() ==> a[i] == b[i],
    ensures
        noted_all(st, list, a) == noted_all(st, list, b),
    decreases list.len(),
{
    if list.len() > 0 {
        noted_by_prefix(st, list.drop_last(), a, b);
    }
}

} // verus!
