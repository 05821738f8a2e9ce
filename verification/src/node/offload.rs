//! What goes into a message: in the clear or encrypted, whole or by reference to
//! storage.

use vstd::prelude::*;
use crate::agent::{AgentCard, CardView, Message, MessageView, Task, TaskView};
use crate::error::NodeError;
use crate::metrics::{counted, Metrics};
use crate::node::payment::{attach_payment, paid};
use crate::node::{LmaoNode, NodeState};
use crate::storage::StorageError;
use crate::text::{clone_opt_text, join2, opt_text};

verus! {

/// The key under which a task is encrypted: the recipient's, where both sides
/// have one.
pub open spec fn encryption_key(st: NodeState, recipient: Option<CardView>) -> Option<Seq<char>> {
    if st.identity is Some && recipient is Some && recipient->0.intro_bundle is Some {
        let bundle = recipient->0.intro_bundle->0;
        Some(bundle.0)
    } else {
        None
    }
}

/// A task whose content is in storage: the content is cleared, and the task says
/// where it is.
pub open spec fn slimmed(task: TaskView, cid: Seq<char>) -> TaskView {
    TaskView {
        message: MessageView { role: task.message.role, parts: seq![] },
        result: match task.result {
            Some(m) => Some(MessageView { role: m.role, parts: seq![] }),
            None => None,
        },
        payload_cid: Some(cid),
        ..task
    }
}

/// Clears the content of a task and notes where it is stored.
pub fn slim_task(task: &Task, cid: String) -> (res: Task)
    ensures
        res@ == slimmed(task@, cid@),
{
    let mut slim = task.clone();
    slim.payload_cid = Some(cid);
    slim.message = Message { role: task.message.role.clone(), parts: Vec::new() };
    slim.result = match &task.result {
        Some(m) => Some(Message { role: m.role.clone(), parts: Vec::new() }),
        None => None,
    };
    assert(slim@.message.parts =~= seq![]);
    assert(slim@.result is Some ==> slim@.result->0.parts =~= seq![]);
    assert(slim@ =~= slimmed(task@, cid@));
    slim
}

/// The message when a task could not be uploaded.
pub open spec fn upload_text(e: StorageError) -> Seq<char> {
    "storage offload upload failed: "@ + e.text()
}

/// The error when a task could not be uploaded.
pub fn upload_error(e: &StorageError) -> (res: NodeError)
    ensures
        res.is_other(upload_text(*e)),
{
    NodeError::Other(join2("storage offload upload failed: ", e.to_string().as_str()))
}

/// What is asked of the outside to make a payload.
#[derive(Debug)]
pub enum PayloadAction {
    /// Write the task as an envelope, encrypted under the key where there is
    /// one.
    Encode(Task, Option<String>),
    /// Upload the task to storage.
    Upload(Task),
    /// Send this payload.
    Ready(Vec<u8>),
    /// There is no payload.
    Fail(NodeError),
}

/// A payload in the making.
#[derive(Debug)]
pub struct PayloadRun {
    task: Task,
    key: Option<String>,
    slim: bool,
}

/// What a [`PayloadRun`] says: the task, the key under which it is encrypted, and
/// whether its content is in storage already.
#[verifier::ext_equal]
pub struct PayloadView {
    pub task: TaskView,
    pub key: Option<Seq<char>>,
    pub slim: bool,
}

impl View for PayloadRun {
    type V = PayloadView;

    closed spec fn view(&self) -> PayloadView {
        PayloadView { task: self.task@, key: opt_text(self.key), slim: self.slim }
    }
}

/// Whether a payload of the given size goes to storage: only one that exceeds
/// the threshold, and only where offloading is on.
pub open spec fn oversized(st: NodeState, len: nat) -> bool {
    st.offload is Some && len > st.offload->0
}

/// The node after a payload was written: encrypted ones are counted.
pub open spec fn after_encoding(st: NodeState, key: Option<Seq<char>>) -> NodeState {
    if key is Some {
        NodeState {
            metrics: Metrics { encryptions: counted(st.metrics.encryptions, 1), ..st.metrics },
            ..st
        }
    } else {
        st
    }
}

/// The card of a recipient, where it is known.
pub open spec fn opt_card(card: Option<&AgentCard>) -> Option<CardView> {
    match card {
        Some(c) => Some(c@),
        None => None,
    }
}

impl PayloadRun {
    /// Begins to make the payload for a task: the task is to be written, and
    /// encrypted where both sides can.
    pub fn begin<T>(node: &LmaoNode<T>, task: &Task, recipient: Option<&AgentCard>) -> (res: (
        PayloadRun,
        PayloadAction,
    ))
        ensures
            res.0@ == (PayloadView {
                task: task@,
                key: encryption_key(node@, opt_card(recipient)),
                slim: false,
            }),
            res.1 is Encode,
            res.1->Encode_0@ == task@,
            opt_text(res.1->Encode_1) == encryption_key(node@, opt_card(recipient)),
    {
        let key = node.encryption_key_for(recipient);
        let run = PayloadRun { task: task.clone(), key, slim: false };
        let (whole, key) = run.to_encode();
        (run, PayloadAction::Encode(whole, key))
    }

    /// The task that is to be written, and the key under which it is encrypted.
    pub(crate) fn to_encode(&self) -> (res: (Task, Option<String>))
        ensures
            res.0@ == self@.task,
            opt_text(res.1) == self@.key,
    {
        (self.task.clone(), clone_opt_text(&self.key))
    }

    /// The agent that the task is for.
    pub(crate) fn recipient(&self) -> (res: &str)
        ensures
            res@ == self@.task.to,
    {
        self.task.to.as_str()
    }

    /// Attaches the proof of a payment to the task.
    pub(crate) fn attach(&mut self, tx_hash: String, amount: u64)
        ensures
            final(self)@ == (PayloadView {
                task: paid(old(self)@.task, tx_hash@, amount),
                ..old(self)@
            }),
    {
        self.task = attach_payment(&self.task, tx_hash, amount);
    }

    /// Goes on once the task was written: a payload that is too large, and is not
    /// slim already, is uploaded; any other is ready.
    pub fn encoded<T>(
        &mut self,
        node: &mut LmaoNode<T>,
        outcome: Result<Vec<u8>, NodeError>,
    ) -> (res: PayloadAction)
        requires
            old(node).wf(),
        ensures
            final(node).wf(),
            final(node).carrier() == old(node).carrier(),
            final(self)@ == old(self)@,
            match outcome {
                Ok(payload) => {
                    &&& final(node)@ == after_encoding(old(node)@, old(self)@.key)
                    &&& if !old(self)@.slim && oversized(old(node)@, payload@.len()) {
                        res is Upload && res->Upload_0@ == old(self)@.task
                    } else {
                        res == PayloadAction::Ready(payload)
                    }
                },
                Err(e) => final(node)@ == old(node)@ && res == PayloadAction::Fail(e),
            },
    {
        match outcome {
            Ok(payload) => {
                if self.key.is_some() {
                    node.payload_encrypted();
                }
                if !self.slim && node.offloads(payload.len()) {
                    PayloadAction::Upload(self.task.clone())
                } else {
                    PayloadAction::Ready(payload)
                }
            },
            Err(e) => PayloadAction::Fail(e),
        }
    }

    /// Goes on once the task was uploaded: the slim task is written next, under
    /// the same key.
    pub fn uploaded(&mut self, outcome: Result<String, StorageError>) -> (res: PayloadAction)
        ensures
            match outcome {
                Ok(cid) => {
                    &&& final(self)@ == (PayloadView { slim: true, ..old(self)@ })
                    &&& res is Encode
                    &&& res->Encode_0@ == slimmed(old(self)@.task, cid@)
                    &&& opt_text(res->Encode_1) == old(self)@.key
                },
                Err(e) => {
                    &&& final(self)@ == old(self)@
                    &&& res is Fail
                    &&& res->Fail_0.is_other(upload_text(e))
                },
            },
    {
        match outcome {
            Ok(cid) => {
                self.slim = true;
                PayloadAction::Encode(slim_task(&self.task, cid), clone_opt_text(&self.key))
            },
            Err(e) => PayloadAction::Fail(upload_error(&e)),
        }
    }
}

impl<T> LmaoNode<T> {
    /// The key under which a task for a recipient is encrypted, or `None` where
    /// it is sent in the clear.
    pub fn encryption_key_for(&self, recipient: Option<&AgentCard>) -> (res: Option<String>)
        ensures
            opt_text(res) == encryption_key(self@, opt_card(recipient)),
    {
        if self.identity.is_none() {
            return None;
        }
        match recipient {
            Some(card) => match &card.intro_bundle {
                Some(bundle) => Some(bundle.agent_pubkey.clone()),
                None => None,
            },
            None => None,
        }
    }

    /// Notes that a payload was encrypted.
    pub(crate) fn payload_encrypted(&mut self)
        requires
            old(self).wf(),
        ensures
            final(self).wf(),
            final(self).carrier() == old(self).carrier(),
            final(self)@ == (NodeState {
                metrics: Metrics {
                    encryptions: counted(old(self)@.metrics.encryptions, 1),
                    ..old(self)@.metrics
                },
                ..old(self)@
            }),
    {
        Metrics::inc(&mut self.metrics.encryptions);
    }

    /// Whether a payload of the given size goes to storage.
    pub fn offloads(&self, payload_len: usize) -> (res: bool)
        ensures
            res == oversized(self@, payload_len as nat),
    {
        match self.offload {
            Some(threshold) => payload_len > threshold,
            None => false,
        }
    }
}

/// A slim task is the full one but for its content: who, to whom, which session
/// and which payment stay.
pub proof fn slim_keeps_the_rest(task: TaskView, cid: Seq<char>)
    ensures
        slimmed(task, cid).id == task.id,
        slimmed(task, cid).from == task.from,
        slimmed(task, cid).to == task.to,
        slimmed(task, cid).state == task.state,
        slimmed(task, cid).session_id == task.session_id,
        slimmed(task, cid).payment_tx == task.payment_tx,
        slimmed(task, cid).payment_amount == task.payment_amount,
        slimmed(task, cid).message.parts.len() == 0,
{
}

} // verus!
