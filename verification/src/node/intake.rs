//! Polling for tasks from end to end: every message that came in is taken apart,
//! and every task in it is vetted, before the accepted ones are handed out.
//!
//! The work that only the outside can do (acknowledging and parsing, decrypting,
//! fetching, looking at the chain) is asked for by a [`PollAction`], and its
//! outcome is handed back by the method of the same name.

use std::collections::VecDeque;
use vstd::prelude::*;
use crate::agent::{
    opt_envelope, tasks, A2AEnvelope, EncryptedPayload, EnvelopeView, Task, TaskView,
};
use crate::error::NodeError;
use crate::node::payment::{
    after_check, payment_check, transfer_pays, with_payment_seen, CheckView, PaymentCheck,
    TransferDetails,
};
use crate::node::poll::{
    after_admission, after_fetch, after_receipt, decrypted, extracted, fetch_text, let_in,
    noted_all, polled, Decrypted, ExtractStep, ExtractView, PollStep, PollView,
};
use crate::node::{LmaoNode, NodeState};
use crate::sds::message::{contents, opt_message, ContentMessage, ContentView, SdsMessage, SdsView};
use crate::storage::StorageError;

verus! {

/// A message that came in on the task topic: its bytes, and what they say as a
/// message of the channel and as an envelope, if anything.
#[derive(Debug)]
pub struct Inbound {
    pub raw: Vec<u8>,
    pub parsed: Option<SdsMessage>,
    pub envelope: Option<A2AEnvelope>,
}

/// What an [`Inbound`] says.
#[verifier::ext_equal]
pub struct InboundView {
    pub raw: Seq<u8>,
    pub parsed: Option<SdsView>,
    pub envelope: Option<EnvelopeView>,
}

impl View for Inbound {
    type V = InboundView;

    open spec fn view(&self) -> InboundView {
        InboundView {
            raw: self.raw@,
            parsed: opt_message(self.parsed),
            envelope: opt_envelope(self.envelope),
        }
    }
}

/// What messages that came in say.
pub open spec fn inbounds(list: Seq<Inbound>) -> Seq<InboundView> {
    Seq::new(list.len(), |i: int| list[i]@)
}

/// What is asked of the outside.
#[derive(Debug)]
pub enum PollAction {
    /// Acknowledge a delivered message and parse the envelope in its content.
    Open(ContentMessage),
    /// Decrypt a payload of the given sender.
    Decrypt(EncryptedPayload, String),
    /// Fetch a task from storage.
    Fetch(String),
    /// Look up the payment of a task on chain.
    LookUp(Task, String),
    /// These tasks were accepted.
    Done(Vec<Task>),
    /// Polling failed.
    Fail(NodeError),
}

/// What a [`PollAction`] says.
#[verifier::ext_equal]
pub enum Asked {
    Open(ContentView),
    Decrypt { nonce: Seq<char>, ciphertext: Seq<char>, sender_pubkey: Seq<char> },
    Fetch(Seq<char>),
    LookUp(TaskView, Seq<char>),
    Done(Seq<TaskView>),
    Fail(NodeError),
}

impl View for PollAction {
    type V = Asked;

    open spec fn view(&self) -> Asked {
        match self {
            PollAction::Open(msg) => Asked::Open(msg@),
            PollAction::Decrypt(encrypted, sender_pubkey) => Asked::Decrypt {
                nonce: encrypted.nonce@,
                ciphertext: encrypted.ciphertext@,
                sender_pubkey: sender_pubkey@,
            },
            PollAction::Fetch(cid) => Asked::Fetch(cid@),
            PollAction::LookUp(task, tx) => Asked::LookUp(task@, tx@),
            PollAction::Done(list) => Asked::Done(tasks(list@)),
            PollAction::Fail(e) => Asked::Fail(*e),
        }
    }
}

/// What is still to be done in a poll.
#[verifier::ext_equal]
pub struct PollState {
    /// Messages that were not looked at yet.
    pub inbox: Seq<InboundView>,
    /// Delivered messages that were not opened yet.
    pub opening: Seq<ContentView>,
    /// Tasks that were found and not vetted yet.
    pub found: Seq<TaskView>,
    /// Tasks that were accepted.
    pub accepted: Seq<TaskView>,
}

/// A poll that looks at tasks: who is not let in, or does not pay, is passed
/// over. Where a payment has to be looked up, the poll stops at that task.
pub open spec fn vetting(st: NodeState, p: PollState) -> (NodeState, PollState, Asked)
    decreases p.found.len(),
{
    if p.found.len() == 0 {
        (st, p, Asked::Done(p.accepted))
    } else {
        let task = p.found[0];
        let rest = PollState { found: p.found.drop_first(), ..p };
        let seen = after_admission(st, task.from);
        if !let_in(st, task.from) {
            vetting(seen, rest)
        } else {
            match payment_check(seen, task) {
                CheckView::Accept => vetting(
                    after_check(seen, task),
                    PollState { accepted: p.accepted.push(task), ..rest },
                ),
                CheckView::Reject => vetting(seen, rest),
                CheckView::LookUp(tx) => (seen, rest, Asked::LookUp(task, tx)),
            }
        }
    }
}

/// A poll that gathers tasks: delivered messages are opened first, then the next
/// message is looked at, and once none is left the tasks are vetted.
pub open spec fn gathering(st: NodeState, p: PollState) -> (NodeState, PollState, Asked)
    decreases p.inbox.len(), 0nat,
{
    if p.opening.len() > 0 {
        (
            st,
            PollState { opening: p.opening.drop_first(), ..p },
            Asked::Open(p.opening[0]),
        )
    } else if p.inbox.len() > 0 {
        looking(st, PollState { inbox: p.inbox.drop_first(), ..p }, p.inbox[0])
    } else {
        vetting(st, p)
    }
}

/// A poll that looks at one message: what the channel delivers is to be opened,
/// and an envelope by itself is gone into.
pub open spec fn looking(st: NodeState, p: PollState, next: InboundView) -> (
    NodeState,
    PollState,
    Asked,
)
    decreases p.inbox.len(), 2nat,
{
    let (after, step) = polled(st, next.parsed, next.raw, next.envelope is Some);
    match step {
        PollView::Delivered(list) => gathering(after, PollState { opening: list, ..p }),
        PollView::Bare => proceeding(after, p, extracted(after, next.envelope)),
        PollView::Nothing => gathering(after, p),
    }
}

/// A poll that goes on with what an envelope holds.
pub open spec fn proceeding(st: NodeState, p: PollState, step: ExtractView) -> (
    NodeState,
    PollState,
    Asked,
)
    decreases p.inbox.len(), 1nat,
{
    match step {
        ExtractView::Ready(task) => gathering(st, PollState { found: p.found.push(task), ..p }),
        ExtractView::Fetch(cid) => (st, p, Asked::Fetch(cid)),
        ExtractView::Decrypt { nonce, ciphertext, sender_pubkey } => (
            st,
            p,
            Asked::Decrypt { nonce, ciphertext, sender_pubkey },
        ),
        ExtractView::Skip => gathering(st, p),
    }
}

/// Whether a node and a poll are where they should be after a step: as expected,
/// and where the poll is done, with the accepted tasks counted and noted in
/// their sessions.
pub open spec fn arrived(
    expected: (NodeState, PollState, Asked),
    st: NodeState,
    p: PollState,
    action: Asked,
) -> bool {
    &&& p == expected.1
    &&& action == expected.2
    &&& match expected.2 {
        Asked::Done(list) => exists|times: Seq<u64>|
            times.len() == list.len() && st == #[trigger] noted_all(
                after_receipt(expected.0, list.len()),
                list,
                times,
            ),
        _ => st == expected.0,
    }
}

/// What follows the look-up of a payment.
pub open spec fn after_look_up(
    st: NodeState,
    p: PollState,
    task: TaskView,
    tx: Seq<char>,
    transfer: Result<TransferDetails, String>,
) -> (NodeState, PollState, Asked) {
    let pays = match st.payment {
        Some(cfg) => transfer_pays(cfg, transfer),
        None => true,
    };
    if pays {
        vetting(
            if st.payment is Some {
                with_payment_seen(st, tx)
            } else {
                st
            },
            PollState { accepted: p.accepted.push(task), ..p },
        )
    } else {
        vetting(st, p)
    }
}

/// A poll under way.
#[derive(Debug)]
pub struct PollRun {
    inbox: VecDeque<Inbound>,
    opening: VecDeque<ContentMessage>,
    found: VecDeque<Task>,
    accepted: Vec<Task>,
}

impl View for PollRun {
    type V = PollState;

    closed spec fn view(&self) -> PollState {
        PollState {
            inbox: inbounds(self.inbox@),
            opening: contents(self.opening@),
            found: tasks(self.found@),
            accepted: tasks(self.accepted@),
        }
    }
}

impl PollRun {
    /// Begins a poll with the messages that came in, which are counted.
    pub fn begin<T>(node: &mut LmaoNode<T>, messages: Vec<Inbound>) -> (res: (PollRun, PollAction))
        requires
            old(node).wf(),
        ensures
            final(node).wf(),
            final(node).carrier() == old(node).carrier(),
            arrived(
                gathering(
                    arrived_messages(old(node)@, messages@.len() as nat),
                    PollState {
                        inbox: inbounds(messages@),
                        opening: seq![],
                        found: seq![],
                        accepted: seq![],
                    },
                ),
                final(node)@,
                res.0@,
                res.1@,
            ),
    {
        node.messages_arrived(messages.len());
        let ghost all = inbounds(messages@);
        let ghost given = messages@;
        let mut inbox: VecDeque<Inbound> = VecDeque::new();
        for msg in it: messages
            invariant
                it.seq() == given,
                inbox@ == given.take(it.index() as int),
        {
            inbox.push_back(msg);
            assert(inbox@ =~= given.take(it.index() + 1));
        }
        assert(given.take(given.len() as int) =~= given);
        let mut run = PollRun {
            inbox,
            opening: VecDeque::new(),
            found: VecDeque::new(),
            accepted: Vec::new(),
        };
        assert(run@ =~= (PollState {
            inbox: all,
            opening: seq![],
            found: seq![],
            accepted: seq![],
        }));
        let action = run.gather(node);
        (run, action)
    }

    /// Goes on after a delivered message was opened; its content was an envelope
    /// or not.
    pub fn opened<T>(&mut self, node: &mut LmaoNode<T>, envelope: Option<A2AEnvelope>) -> (res:
        PollAction)
        requires
            old(node).wf(),
        ensures
            final(node).wf(),
            final(node).carrier() == old(node).carrier(),
            arrived(
                proceeding(
                    old(node)@,
                    old(self)@,
                    extracted(old(node)@, opt_envelope(envelope)),
                ),
                final(node)@,
                final(self)@,
                res@,
            ),
    {
        let step = node.extract_step(envelope);
        self.proceed(node, step)
    }

    /// Goes on after a payload was decrypted, or could not be.
    pub fn decrypted<T>(&mut self, node: &mut LmaoNode<T>, outcome: Decrypted) -> (res: PollAction)
        requires
            old(node).wf(),
        ensures
            final(node).wf(),
            final(node).carrier() == old(node).carrier(),
            arrived(
                proceeding(
                    decrypted(old(node)@, outcome).0,
                    old(self)@,
                    decrypted(old(node)@, outcome).1,
                ),
                final(node)@,
                final(self)@,
                res@,
            ),
    {
        let step = node.after_decrypt(outcome);
        self.proceed(node, step)
    }

    /// Goes on after a task was fetched from storage, or could not be.
    pub fn fetched<T>(
        &mut self,
        node: &mut LmaoNode<T>,
        outcome: Result<Result<Task, String>, StorageError>,
    ) -> (res: PollAction)
        requires
            old(node).wf(),
        ensures
            final(node).wf(),
            final(node).carrier() == old(node).carrier(),
            match outcome {
                Ok(Ok(task)) => arrived(
                    gathering(
                        old(node)@,
                        PollState { found: old(self)@.found.push(task@), ..old(self)@ },
                    ),
                    final(node)@,
                    final(self)@,
                    res@,
                ),
                Ok(Err(fault)) => final(node)@ == old(node)@ && res == PollAction::Fail(
                    NodeError::Serialization(fault),
                ),
                Err(e) => final(node)@ == old(node)@ && res is Fail && res->Fail_0.is_other(
                    fetch_text(e),
                ),
            },
    {
        match after_fetch(outcome) {
            Ok(task) => {
                self.keep(task);
                self.gather(node)
            },
            Err(e) => PollAction::Fail(e),
        }
    }

    /// Goes on after the payment of a task was looked up.
    pub fn looked_up<T>(
        &mut self,
        node: &mut LmaoNode<T>,
        task: Task,
        tx_hash: &str,
        transfer: Result<TransferDetails, String>,
    ) -> (res: PollAction)
        requires
            old(node).wf(),
        ensures
            final(node).wf(),
            final(node).carrier() == old(node).carrier(),
            arrived(
                after_look_up(old(node)@, old(self)@, task@, tx_hash@, transfer),
                final(node)@,
                final(self)@,
                res@,
            ),
    {
        if node.settle_payment(tx_hash, transfer) {
            let ghost before = self@.accepted;
            self.accepted.push(task);
            assert(self@.accepted =~= before.push(task@));
        }
        self.vet(node)
    }

    fn keep(&mut self, task: Task)
        ensures
            final(self)@ == (PollState { found: old(self)@.found.push(task@), ..old(self)@ }),
    {
        self.found.push_back(task);
        assert(self@.found =~= old(self)@.found.push(task@));
    }

    fn proceed<T>(&mut self, node: &mut LmaoNode<T>, step: ExtractStep) -> (res: PollAction)
        requires
            old(node).wf(),
        ensures
            final(node).wf(),
            final(node).carrier() == old(node).carrier(),
            arrived(
                proceeding(old(node)@, old(self)@, step@),
                final(node)@,
                final(self)@,
                res@,
            ),
    {
        match step {
            ExtractStep::Ready(task) => {
                self.keep(task);
                self.gather(node)
            },
            ExtractStep::Fetch(cid) => PollAction::Fetch(cid),
            ExtractStep::Decrypt(encrypted, sender) => PollAction::Decrypt(encrypted, sender),
            ExtractStep::Skip => self.gather(node),
        }
    }

    fn gather<T>(&mut self, node: &mut LmaoNode<T>) -> (res: PollAction)
        requires
            old(node).wf(),
        ensures
            final(node).wf(),
            final(node).carrier() == old(node).carrier(),
            arrived(gathering(old(node)@, old(self)@), final(node)@, final(self)@, res@),
    {
        loop
            invariant
                node.wf(),
                node.carrier() == old(node).carrier(),
                gathering(old(node)@, old(self)@) == gathering(node@, self@),
            decreases self@.inbox.len(),
        {
            let ghost before = self@;
            if let Some(msg) = self.opening.pop_front() {
                assert(msg@ == before.opening[0]);
                assert(self@.opening =~= before.opening.drop_first());
                return PollAction::Open(msg);
            }
            match self.inbox.pop_front() {
                Some(next) => {
                    assert(next@ == before.inbox[0]);
                    assert(self@.inbox =~= before.inbox.drop_first());
                    if let Some(action) = self.look_at(node, next) {
                        return action;
                    }
                },
                None => {
                    return self.vet(node);
                },
            }
        }
    }

    /// Looks at one message: returns what has to be asked for, or nothing where
    /// gathering goes on.
    fn look_at<T>(&mut self, node: &mut LmaoNode<T>, next: Inbound) -> (res: Option<PollAction>)
        requires
            old(node).wf(),
            old(self)@.opening.len() == 0,
        ensures
            final(node).wf(),
            final(node).carrier() == old(node).carrier(),
            final(self)@.inbox == old(self)@.inbox,
            res is None ==> looking(old(node)@, old(self)@, next@) == gathering(
                final(node)@,
                final(self)@,
            ),
            res is Some ==> !(res->0 is Done) && looking(old(node)@, old(self)@, next@) == (
                final(node)@,
                final(self)@,
                res->0@,
            ),
    {
        let step = node.take_message(next.parsed, next.raw.as_slice(), next.envelope.is_some());
        match step {
            PollStep::Delivered(list) => {
                self.opening = queue_of(list);
                assert(self@ =~= (PollState { opening: contents(list@), ..old(self)@ }));
                None
            },
            PollStep::Bare => match node.extract_step(next.envelope) {
                ExtractStep::Ready(task) => {
                    self.keep(task);
                    None
                },
                ExtractStep::Fetch(cid) => Some(PollAction::Fetch(cid)),
                ExtractStep::Decrypt(encrypted, sender) => Some(
                    PollAction::Decrypt(encrypted, sender),
                ),
                ExtractStep::Skip => None,
            },
            PollStep::Nothing => None,
        }
    }

    fn vet<T>(&mut self, node: &mut LmaoNode<T>) -> (res: PollAction)
        requires
            old(node).wf(),
        ensures
            final(node).wf(),
            final(node).carrier() == old(node).carrier(),
            arrived(vetting(old(node)@, old(self)@), final(node)@, final(self)@, res@),
    {
        loop
            invariant
                node.wf(),
                node.carrier() == old(node).carrier(),
                vetting(old(node)@, old(self)@) == vetting(node@, self@),
            decreases self@.found.len(),
        {
            let ghost before = self@;
            match self.found.pop_front() {
                Some(task) => {
                    assert(task@ == before.found[0]);
                    assert(self@.found =~= before.found.drop_first());
                    if node.admit_sender(&task) {
                        match node.verify_payment(&task) {
                            PaymentCheck::Accept => {
                                self.accepted.push(task);
                                assert(self@.accepted =~= before.accepted.push(task@));
                            },
                            PaymentCheck::Reject => {},
                            PaymentCheck::LookUp(tx) => {
                                return PollAction::LookUp(task, tx);
                            },
                        }
                    }
                },
                None => {
                    let ghost expected = vetting(node@, self@);
                    node.tasks_accepted(&self.accepted);
                    let mut out: Vec<Task> = Vec::new();
                    let mut i: usize = 0;
                    while i < self.accepted.len()
                        invariant
                            0 <= i <= self.accepted.len(),
                            out.len() == i,
                            forall|k: int|
                                0 <= k < i ==> (#[trigger] out@[k])@ == self.accepted@[k]@,
                        decreases self.accepted.len() - i,
                    {
                        out.push(self.accepted[i].clone());
                        i = i + 1;
                    }
                    assert(tasks(out@) =~= self@.accepted);
                    return PollAction::Done(out);
                },
            }
        }
    }
}

/// Messages as a queue.
fn queue_of(list: Vec<ContentMessage>) -> (res: VecDeque<ContentMessage>)
    ensures
        res@ == list@,
{
    let ghost all = list@;
    let mut out: VecDeque<ContentMessage> = VecDeque::new();
    for msg in it: list
        invariant
            it.seq() == all,
            out@ == all.take(it.index() as int),
    {
        out.push_back(msg);
        assert(out@ =~= all.take(it.index() + 1));
    }
    assert(all.take(all.len() as int) =~= all);
    out
}

/// The node after messages came in.
pub open spec fn arrived_messages(st: NodeState, n: nat) -> NodeState {
    NodeState {
        metrics: crate::metrics::Metrics {
            messages_received: crate::metrics::counted(st.metrics.messages_received, n),
            ..st.metrics
        },
        ..st
    }
}

} // verus!
