//! Receiving tasks: from messages to accepted tasks.

use vstd::prelude::*;
use crate::agent::{
    opt_envelope, tasks, A2AEnvelope, EncryptedPayload, EnvelopeView, Task, TaskView,
};
use crate::clock::now_secs;
use crate::error::NodeError;
use crate::metrics::{counted, Metrics};
use crate::node::send::with_session_task;
use crate::node::{with_new_session, LmaoNode, NodeState};
use crate::sds::bloom::{holds, with_id};
use crate::sds::message::{
    compute_message_id, contents, message_id_of, opt_message, ContentMessage, ContentView,
    SdsMessage, SdsView,
};
use crate::sds::state::{received, ChannelState};
use crate::session::{begun, sessions_stay_bounded, with_task, Session};
use crate::storage::StorageError;
use crate::table::has_key;
use crate::text::join2;
use crate::trust::{trusts, TrustMode};

verus! {

/// What a message on the task topic holds.
#[derive(Debug)]
pub enum PollStep {
    /// Messages that the channel delivers: each is acknowledged, and its content
    /// holds an envelope.
    Delivered(Vec<ContentMessage>),
    /// The message itself is an envelope.
    Bare,
    /// Nothing new.
    Nothing,
}

/// What a [`PollStep`] says.
#[verifier::ext_equal]
pub enum PollView {
    Delivered(Seq<ContentView>),
    Bare,
    Nothing,
}

impl View for PollStep {
    type V = PollView;

    open spec fn view(&self) -> PollView {
        match self {
            PollStep::Delivered(list) => PollView::Delivered(contents(list@)),
            PollStep::Bare => PollView::Bare,
            PollStep::Nothing => PollView::Nothing,
        }
    }
}

/// What the channel makes of a message, or of bytes that are none.
pub open spec fn channel_received(st: ChannelState, parsed: Option<SdsView>) -> (
    ChannelState,
    Seq<ContentView>,
) {
    match parsed {
        Some(msg) => received(st, msg),
        None => (st, Seq::empty()),
    }
}

/// What a message on the task topic holds, and the node after it. What the
/// channel delivers comes first; otherwise bytes that are an envelope by
/// themselves count once.
pub open spec fn polled(
    st: NodeState,
    parsed: Option<SdsView>,
    raw: Seq<u8>,
    is_envelope: bool,
) -> (NodeState, PollView) {
    let (channel, delivered) = channel_received(st.channel, parsed);
    if delivered.len() > 0 {
        (NodeState { channel, ..st }, PollView::Delivered(delivered))
    } else if is_envelope && !holds(channel.filter, message_id_of(raw)) {
        (
            NodeState {
                channel: ChannelState {
                    filter: with_id(channel.filter, message_id_of(raw)),
                    ..channel
                },
                ..st
            },
            PollView::Bare,
        )
    } else {
        (NodeState { channel, ..st }, PollView::Nothing)
    }
}

/// What it takes to get at the task in an envelope.
#[derive(Debug)]
pub enum ExtractStep {
    /// The task is there.
    Ready(Task),
    /// The task is in storage.
    Fetch(String),
    /// The task has to be decrypted.
    Decrypt(EncryptedPayload, String),
    /// There is no task for this node.
    Skip,
}

/// What an [`ExtractStep`] says.
#[verifier::ext_equal]
pub enum ExtractView {
    Ready(TaskView),
    Fetch(Seq<char>),
    Decrypt { nonce: Seq<char>, ciphertext: Seq<char>, sender_pubkey: Seq<char> },
    Skip,
}

impl View for ExtractStep {
    type V = ExtractView;

    open spec fn view(&self) -> ExtractView {
        match self {
            ExtractStep::Ready(task) => ExtractView::Ready(task@),
            ExtractStep::Fetch(cid) => ExtractView::Fetch(cid@),
            ExtractStep::Decrypt(encrypted, sender_pubkey) => ExtractView::Decrypt {
                nonce: encrypted.nonce@,
                ciphertext: encrypted.ciphertext@,
                sender_pubkey: sender_pubkey@,
            },
            ExtractStep::Skip => ExtractView::Skip,
        }
    }
}

/// A task is handed out, unless its content is in storage and there is a storage
/// to fetch it from.
pub open spec fn fetched_or_ready(st: NodeState, task: TaskView) -> ExtractView {
    if task.payload_cid is Some && st.offload is Some {
        ExtractView::Fetch(task.payload_cid->0)
    } else {
        ExtractView::Ready(task)
    }
}

/// What it takes to get at the task in an envelope.
pub open spec fn extracted(st: NodeState, envelope: Option<EnvelopeView>) -> ExtractView {
    match envelope {
        Some(EnvelopeView::Task(task)) => fetched_or_ready(st, task),
        Some(EnvelopeView::EncryptedTask { nonce, ciphertext, sender_pubkey }) => if st.identity
            is Some {
            ExtractView::Decrypt { nonce, ciphertext, sender_pubkey }
        } else {
            ExtractView::Skip
        },
        _ => ExtractView::Skip,
    }
}

/// What came of decrypting.
#[derive(Debug)]
pub enum Decrypted {
    /// The payload could not be decrypted.
    Refused,
    /// The payload was decrypted, and holds a task or something else.
    Opened(Result<Task, String>),
}

/// The node after a payload was decrypted.
pub open spec fn after_decryption(st: NodeState) -> NodeState {
    NodeState {
        metrics: Metrics { decryptions: counted(st.metrics.decryptions, 1), ..st.metrics },
        ..st
    }
}

/// What follows decryption, and the node after it. What could not be decrypted,
/// or is no task, is skipped.
pub open spec fn decrypted(st: NodeState, outcome: Decrypted) -> (NodeState, ExtractView) {
    match outcome {
        Decrypted::Refused => (st, ExtractView::Skip),
        Decrypted::Opened(Err(_)) => (after_decryption(st), ExtractView::Skip),
        Decrypted::Opened(Ok(task)) => (after_decryption(st), fetched_or_ready(st, task@)),
    }
}

/// Whether a task is let in by the trust list: only enforcement turns strangers
/// away.
pub open spec fn let_in(st: NodeState, from: Seq<char>) -> bool {
    trusts(st.trust, from) || st.trust.mode != TrustMode::Enforce
}

/// The node after a task of the given sender was looked at: strangers are
/// counted.
pub open spec fn after_admission(st: NodeState, from: Seq<char>) -> NodeState {
    if trusts(st.trust, from) {
        st
    } else {
        NodeState {
            metrics: Metrics {
                tasks_dropped_untrusted: counted(st.metrics.tasks_dropped_untrusted, 1),
                ..st.metrics
            },
            ..st
        }
    }
}

/// The node after a task was noted in its session, if it has one. A session that
/// is not known begins, under the identifier that the task names, with the task's
/// sender.
pub open spec fn noted(st: NodeState, task: TaskView, now: u64) -> NodeState {
    match task.session_id {
        Some(sid) => if has_key(st.sessions, sid) {
            NodeState { sessions: with_session_task(st.sessions, sid, task.id, now), ..st }
        } else {
            with_new_session(
                st,
                sid,
                with_task(begun(sid, task.from, now), task.id, now),
            )
        },
        None => st,
    }
}

/// The node after tasks were noted in their sessions, each at its time.
pub open spec fn noted_all(st: NodeState, list: Seq<TaskView>, times: Seq<u64>) -> NodeState
    decreases list.len(),
{
    if list.len() == 0 {
        st
    } else {
        noted(
            noted_all(st, list.drop_last(), times),
            list.last(),
            times[list.len() - 1],
        )
    }
}

/// The node after tasks were received.
pub open spec fn after_receipt(st: NodeState, n: nat) -> NodeState {
    NodeState {
        metrics: Metrics { tasks_received: counted(st.metrics.tasks_received, n), ..st.metrics },
        ..st
    }
}

/// The message when stored content cannot be fetched.
pub open spec fn fetch_text(e: StorageError) -> Seq<char> {
    "storage fetch by CID failed: "@ + e.text()
}

/// What comes of fetching a task from storage: the task, the storage's error, or
/// that the content is no task.
pub fn after_fetch(fetched: Result<Result<Task, String>, StorageError>) -> (res: Result<
    Task,
    NodeError,
>)
    ensures
        match fetched {
            Ok(Ok(task)) => res == Ok::<Task, NodeError>(task),
            Ok(Err(fault)) => res == Err::<Task, NodeError>(NodeError::Serialization(fault)),
            Err(e) => res is Err && res->Err_0.is_other(fetch_text(e)),
        },
{
    match fetched {
        Ok(Ok(task)) => Ok(task),
        Ok(Err(fault)) => Err(NodeError::Serialization(fault)),
        Err(e) => Err(
            NodeError::Other(join2("storage fetch by CID failed: ", e.to_string().as_str())),
        ),
    }
}

impl<T> LmaoNode<T> {
    /// Counts messages that came in.
    pub fn messages_arrived(&mut self, n: usize)
        requires
            old(self).wf(),
        ensures
            final(self).wf(),
            final(self).carrier() == old(self).carrier(),
            final(self)@ == (NodeState {
                metrics: Metrics {
                    messages_received: counted(
                        old(self)@.metrics.messages_received,
                        n as nat,
                    ),
                    ..old(self)@.metrics
                },
                ..old(self)@
            }),
    {
        Metrics::inc_by(&mut self.metrics.messages_received, n as u64);
    }

    /// Takes in a message on the task topic: `parsed` is what it says as a
    /// message of the channel, if it is one, and `is_envelope` whether its bytes
    /// are an envelope.
    pub fn take_message(
        &mut self,
        parsed: Option<SdsMessage>,
        raw: &[u8],
        is_envelope: bool,
    ) -> (res: PollStep)
        requires
            old(self).wf(),
        ensures
            final(self).wf(),
            final(self).carrier() == old(self).carrier(),
            (final(self)@, res@) == polled(old(self)@, opt_message(parsed), raw@, is_envelope),
    {
        let delivered = self.channel.receive(parsed);
        let ghost between = self@;
        proof {
            if parsed is None {
                assert(contents(delivered@) =~= Seq::empty());
            }
        }
        if delivered.len() > 0 {
            return PollStep::Delivered(delivered);
        }
        assert(contents(delivered@) =~= Seq::empty());
        if is_envelope {
            let id = compute_message_id(raw);
            if !self.channel.is_duplicate(id.as_str()) {
                self.channel.mark_seen(id.as_str());
                return PollStep::Bare;
            }
        }
        PollStep::Nothing
    }

    /// Decides what it takes to get at the task in an envelope. Bytes that were
    /// no envelope (`None`), and envelopes that hold something else, are skipped;
    /// so is an encrypted task on a node without an identity.
    pub fn extract_step(&self, envelope: Option<A2AEnvelope>) -> (res: ExtractStep)
        ensures
            res@ == extracted(self@, opt_envelope(envelope)),
    {
        match envelope {
            Some(A2AEnvelope::Task(task)) => self.fetch_step(task),
            Some(A2AEnvelope::EncryptedTask { encrypted, sender_pubkey }) => {
                if self.identity.is_some() {
                    ExtractStep::Decrypt(encrypted, sender_pubkey)
                } else {
                    ExtractStep::Skip
                }
            },
            _ => ExtractStep::Skip,
        }
    }

    /// Decides what follows decryption. What could not be decrypted, or is no
    /// task, is skipped.
    pub fn after_decrypt(&mut self, outcome: Decrypted) -> (res: ExtractStep)
        requires
            old(self).wf(),
        ensures
            final(self).wf(),
            final(self).carrier() == old(self).carrier(),
            (final(self)@, res@) == decrypted(old(self)@, outcome),
    {
        match outcome {
            Decrypted::Refused => ExtractStep::Skip,
            Decrypted::Opened(opened) => {
                Metrics::inc(&mut self.metrics.decryptions);
                assert(self@ =~= after_decryption(old(self)@));
                match opened {
                    Ok(task) => self.fetch_step(task),
                    Err(_) => ExtractStep::Skip,
                }
            },
        }
    }

    /// Decides whether the content of a task has to be fetched from storage. A
    /// task whose content is stored elsewhere is handed out as it is where no
    /// storage is configured.
    fn fetch_step(&self, task: Task) -> (res: ExtractStep)
        ensures
            res@ == fetched_or_ready(self@, task@),
    {
        if self.offload.is_some() {
            if let Some(cid) = &task.payload_cid {
                return ExtractStep::Fetch(cid.clone());
            }
        }
        ExtractStep::Ready(task)
    }

    /// Decides by the trust list whether a task is let in. Strangers are counted
    /// whenever the list is in use, and turned away where it is enforced.
    pub fn admit_sender(&mut self, task: &Task) -> (res: bool)
        requires
            old(self).wf(),
        ensures
            final(self).wf(),
            final(self).carrier() == old(self).carrier(),
            res == let_in(old(self)@, task@.from),
            final(self)@ == after_admission(old(self)@, task@.from),
    {
        if self.is_trusted(task.from.as_str()) {
            return true;
        }
        Metrics::inc(&mut self.metrics.tasks_dropped_untrusted);
        assert(self@ =~= after_admission(old(self)@, task@.from));
        match self.trust_list.mode() {
            TrustMode::Enforce => false,
            _ => true,
        }
    }

    /// Counts accepted tasks and notes each in its session.
    pub fn tasks_accepted(&mut self, accepted: &Vec<Task>)
        requires
            old(self).wf(),
        ensures
            final(self).wf(),
            final(self).carrier() == old(self).carrier(),
            exists|times: Seq<u64>|
                times.len() == accepted@.len() && final(self)@ == #[trigger] noted_all(
                    after_receipt(old(self)@, accepted@.len() as nat),
                    tasks(accepted@),
                    times,
                ),
    {
        Metrics::inc_by(&mut self.metrics.tasks_received, accepted.len() as u64);
        let ghost start = after_receipt(old(self)@, accepted@.len() as nat);
        let ghost all = tasks(accepted@);
        let ghost mut times: Seq<u64> = seq![];
        assert(self@ =~= start);
        assert(all.take(0) =~= seq![]);
        let mut i: usize = 0;
        while i < accepted.len()
            invariant
                0 <= i <= accepted.len(),
                self.wf(),
                self.carrier() == old(self).carrier(),
                all == tasks(accepted@),
                times.len() == i,
                self@ == noted_all(start, all.take(i as int), times),
            decreases accepted.len() - i,
        {
            let now: u64 = now_secs();
            proof {
                let before = times;
                times = times.push(now);
                assert(all.take(i + 1).drop_last() =~= all.take(i as int));
                assert(all.take(i + 1).last() == accepted@[i as int]@);
                noted_uses_prefix(start, all.take(i as int), before, times);
            }
            self.track_task_at(&accepted[i], now);
            i = i + 1;
        }
        assert(all.take(all.len() as int) =~= all);
    }

    /// Notes a task in its session at the given time; a session that is not known
    /// begins under the identifier that the task names.
    pub fn track_task_at(&mut self, task: &Task, now: u64)
        requires
            old(self).wf(),
        ensures
            final(self).wf(),
            final(self).carrier() == old(self).carrier(),
            final(self)@ == noted(old(self)@, task@, now),
    {
        if let Some(sid) = &task.session_id {
            proof {
                crate::table::mapped_keys(self.sessions@, |s: Session| s@, sid@);
            }
            if self.sessions.contains(sid.as_str()) {
                self.note_session_task_at(sid.as_str(), task.id.as_str(), now);
            } else {
                let mut session = Session::starting(sid.clone(), task.from.as_str(), now);
                proof {
                    sessions_stay_bounded(session@, task@.id, now);
                }
                session.push_task_at(task.id.clone(), now);
                self.put_session(sid.as_str(), session);
            }
        }
    }
}

proof fn noted_uses_prefix(
    st: NodeState,
    list: Seq<TaskView>,
    a: Seq<u64>,
    b: Seq<u64>,
)
    requires
        list.len() <= a.len() <= b.len(),
        forall|i: int| 0 <= i < a.len() ==> a[i] == b[i],
    ensures
        noted_all(st, list, a) == noted_all(st, list, b),
    decreases list.len(),
{
    if list.len() > 0 {
        noted_uses_prefix(st, list.drop_last(), a, b);
    }
}

} // verus!
