//! Sending a task from end to end: paying, making the payload, sending it
//! reliably, and trying again where the transport fails.
//!
//! What only the outside can do is asked for by a [`SendAction`], and its outcome
//! is handed back by the method of the same name.

use vstd::prelude::*;
use crate::agent::{task_topic, task_topic_of, AgentCard, Task, TaskView};
use crate::error::NodeError;
use crate::metrics::{counted, Metrics};
use crate::node::offload::{
    after_encoding, encryption_key, opt_card, oversized, slimmed, upload_text, PayloadAction,
    PayloadRun, PayloadView,
};
use crate::node::payment::{amount_to_pay, paid};
use crate::node::send::{after_failure, after_send};
use crate::node::{LmaoNode, NodeState};
use crate::retry::wait_after;
use crate::storage::StorageError;
use crate::text::{clone_bytes, opt_text};

verus! {

/// What is asked of the outside to send a task.
#[derive(Debug)]
pub enum SendAction {
    /// Pay the given agent the given amount.
    Pay(String, u64),
    /// Write the task as an envelope, encrypted under the key where there is
    /// one.
    Encode(Task, Option<String>),
    /// Upload the task to storage.
    Upload(Task),
    /// Send a payload reliably on a topic.
    Send(String, Vec<u8>),
    /// Wait for so many milliseconds, then send the payload on the topic.
    WaitAndSend(u64, String, Vec<u8>),
    /// The task was sent; this is whether it was acknowledged.
    Done(bool),
    /// The task was not sent.
    Fail(NodeError),
}

/// A task on its way out.
#[derive(Debug)]
pub struct SendRun {
    making: PayloadRun,
    payload: Vec<u8>,
    failures: u32,
}

/// What a [`SendRun`] says: how the payload is made, of the task with the proof of
/// its payment, the payload once it is made, and how often sending it has failed.
#[verifier::ext_equal]
pub struct SendView {
    pub making: PayloadView,
    pub payload: Seq<u8>,
    pub failures: u32,
}

impl View for SendRun {
    type V = SendView;

    closed spec fn view(&self) -> SendView {
        SendView { making: self.making@, payload: self.payload@, failures: self.failures }
    }
}

/// A send that begins.
pub open spec fn beginning(task: TaskView, key: Option<Seq<char>>) -> SendView {
    SendView { making: PayloadView { task, key, slim: false }, payload: seq![], failures: 0 }
}

/// Whether an action asks for a task to be written under a key.
pub open spec fn asks_to_encode(action: SendAction, task: TaskView, key: Option<Seq<char>>) -> bool {
    action is Encode && action->Encode_0@ == task && opt_text(action->Encode_1) == key
}

/// Whether an action asks for the payload of a run to be sent to the recipient's
/// topic.
pub open spec fn asks_to_send(action: SendAction, run: SendView) -> bool {
    action is Send && action->Send_0@ == task_topic_of(run.making.task.to) && action->Send_1@
        == run.payload
}

/// The node after an attempt to send failed and another follows.
pub open spec fn after_retry(st: NodeState) -> NodeState {
    NodeState {
        metrics: Metrics { retry_attempts: counted(st.metrics.retry_attempts, 1), ..st.metrics },
        ..st
    }
}

/// The node after the last attempt to send failed.
pub open spec fn after_exhaustion(st: NodeState) -> NodeState {
    after_send(
        if st.retry is Some {
            NodeState {
                metrics: Metrics {
                    retries_exhausted: counted(st.metrics.retries_exhausted, 1),
                    ..st.metrics
                },
                ..st
            }
        } else {
            st
        },
        false,
    )
}

/// Whether the counters of a node tell how a send stands: a task that was sent is
/// counted as sent, one that failed for whatever reason as failed, and one that is
/// still under way as neither.
pub open spec fn tallied(before: NodeState, after: NodeState, action: SendAction) -> bool {
    &&& after.metrics.tasks_sent == if action is Done {
        counted(before.metrics.tasks_sent, 1)
    } else {
        before.metrics.tasks_sent
    }
    &&& after.metrics.tasks_failed == if action is Fail {
        counted(before.metrics.tasks_failed, 1)
    } else {
        before.metrics.tasks_failed
    }
}

impl SendRun {
    /// Sending has failed less often than can be counted.
    pub open spec fn wf(&self) -> bool {
        self@.failures < u32::MAX
    }

    /// Begins to send a task: its recipient is paid first, where that is set up;
    /// otherwise its payload is made.
    pub fn begin<T>(node: &LmaoNode<T>, task: &Task, recipient: Option<&AgentCard>) -> (res: (
        SendRun,
        SendAction,
    ))
        ensures
            res.0.wf(),
            res.0@ == beginning(task@, encryption_key(node@, opt_card(recipient))),
            match amount_to_pay(node@) {
                Some(amount) => res.1 is Pay && res.1->Pay_0@ == task@.to && res.1->Pay_1
                    == amount,
                None => asks_to_encode(
                    res.1,
                    task@,
                    encryption_key(node@, opt_card(recipient)),
                ),
            },
    {
        let (making, _) = PayloadRun::begin(node, task, recipient);
        let run = SendRun { making, payload: Vec::new(), failures: 0 };
        assert(run@.payload =~= seq![]);
        let action = match node.auto_pay_amount() {
            Some(amount) => SendAction::Pay(task.to.clone(), amount),
            None => run.encode(),
        };
        (run, action)
    }

    /// Asks for the task to be written.
    fn encode(&self) -> (res: SendAction)
        ensures
            asks_to_encode(res, self@.making.task, self@.making.key),
    {
        let (task, key) = self.making.to_encode();
        SendAction::Encode(task, key)
    }

    /// Follows the making of the payload: a payload that is ready is sent, and one
    /// that cannot be made ends the send, which is counted as failed.
    fn follow<T>(&mut self, node: &mut LmaoNode<T>, action: PayloadAction) -> (res: SendAction)
        requires
            old(self).wf(),
            old(node).wf(),
        ensures
            final(self).wf(),
            final(node).wf(),
            final(node).carrier() == old(node).carrier(),
            final(self)@ == match action {
                PayloadAction::Ready(payload) => SendView { payload: payload@, ..old(self)@ },
                _ => old(self)@,
            },
            final(node)@ == match action {
                PayloadAction::Fail(_) => after_failure(old(node)@),
                _ => old(node)@,
            },
            match action {
                PayloadAction::Encode(task, key) => res == SendAction::Encode(task, key),
                PayloadAction::Upload(task) => res == SendAction::Upload(task),
                PayloadAction::Ready(_) => asks_to_send(res, final(self)@),
                PayloadAction::Fail(e) => res == SendAction::Fail(e),
            },
    {
        match action {
            PayloadAction::Encode(task, key) => SendAction::Encode(task, key),
            PayloadAction::Upload(task) => SendAction::Upload(task),
            PayloadAction::Ready(payload) => {
                self.payload = payload;
                SendAction::Send(
                    task_topic(self.making.recipient()),
                    clone_bytes(self.payload.as_slice()),
                )
            },
            PayloadAction::Fail(e) => {
                node.task_failed();
                SendAction::Fail(e)
            },
        }
    }

    /// Goes on after the payment of `amount`: its proof is attached to the task,
    /// and the payload is made. A payment that failed ends the send, which is
    /// counted as failed.
    pub fn paid<T>(
        &mut self,
        node: &mut LmaoNode<T>,
        amount: u64,
        outcome: Result<String, String>,
    ) -> (res: SendAction)
        requires
            old(self).wf(),
            old(node).wf(),
        ensures
            final(self).wf(),
            final(node).wf(),
            final(node).carrier() == old(node).carrier(),
            tallied(old(node)@, final(node)@, res),
            match outcome {
                Ok(tx) => {
                    &&& final(node)@ == old(node)@
                    &&& final(self)@ == (SendView {
                        making: PayloadView {
                            task: paid(old(self)@.making.task, tx@, amount),
                            ..old(self)@.making
                        },
                        ..old(self)@
                    })
                    &&& asks_to_encode(
                        res,
                        paid(old(self)@.making.task, tx@, amount),
                        old(self)@.making.key,
                    )
                },
                Err(e) => {
                    &&& final(node)@ == after_failure(old(node)@)
                    &&& final(self)@ == old(self)@
                    &&& res == SendAction::Fail(NodeError::Execution(e))
                },
            },
    {
        match outcome {
            Ok(tx) => {
                self.making.attach(tx, amount);
                self.encode()
            },
            Err(e) => {
                node.task_failed();
                SendAction::Fail(NodeError::Execution(e))
            },
        }
    }

    /// Goes on once the task was written: a payload that is too large, and is not
    /// slim already, is uploaded; any other is sent. A task that could not be
    /// written ends the send, which is counted as failed.
    pub fn encoded<T>(
        &mut self,
        node: &mut LmaoNode<T>,
        outcome: Result<Vec<u8>, NodeError>,
    ) -> (res: SendAction)
        requires
            old(self).wf(),
            old(node).wf(),
        ensures
            final(self).wf(),
            final(node).wf(),
            final(node).carrier() == old(node).carrier(),
            tallied(old(node)@, final(node)@, res),
            match outcome {
                Ok(payload) => {
                    &&& final(node)@ == after_encoding(old(node)@, old(self)@.making.key)
                    &&& if !old(self)@.making.slim && oversized(old(node)@, payload@.len()) {
                        &&& final(self)@ == old(self)@
                        &&& res is Upload
                        &&& res->Upload_0@ == old(self)@.making.task
                    } else {
                        &&& final(self)@ == (SendView { payload: payload@, ..old(self)@ })
                        &&& asks_to_send(res, final(self)@)
                    }
                },
                Err(e) => {
                    &&& final(node)@ == after_failure(old(node)@)
                    &&& final(self)@ == old(self)@
                    &&& res == SendAction::Fail(e)
                },
            },
    {
        let action = self.making.encoded(node, outcome);
        self.follow(node, action)
    }

    /// Goes on once the task was uploaded: the slim task is written next. An upload
    /// that failed ends the send, which is counted as failed.
    pub fn uploaded<T>(
        &mut self,
        node: &mut LmaoNode<T>,
        outcome: Result<String, StorageError>,
    ) -> (res: SendAction)
        requires
            old(self).wf(),
            old(node).wf(),
        ensures
            final(self).wf(),
            final(node).wf(),
            final(node).carrier() == old(node).carrier(),
            tallied(old(node)@, final(node)@, res),
            match outcome {
                Ok(cid) => {
                    &&& final(node)@ == old(node)@
                    &&& final(self)@ == (SendView {
                        making: PayloadView { slim: true, ..old(self)@.making },
                        ..old(self)@
                    })
                    &&& asks_to_encode(
                        res,
                        slimmed(old(self)@.making.task, cid@),
                        old(self)@.making.key,
                    )
                },
                Err(e) => {
                    &&& final(node)@ == after_failure(old(node)@)
                    &&& final(self)@ == old(self)@
                    &&& res is Fail
                    &&& res->Fail_0.is_other(upload_text(e))
                },
            },
    {
        let action = self.making.uploaded(outcome);
        self.follow(node, action)
    }

    /// Goes on after an attempt to send: a sent task is counted; a failure is
    /// followed by another attempt as long as the retry configuration allows,
    /// and is counted and handed out otherwise. `drawn` is a number drawn at random.
    pub fn sent<T>(
        &mut self,
        node: &mut LmaoNode<T>,
        outcome: Result<bool, NodeError>,
        drawn: u64,
    ) -> (res: SendAction)
        requires
            old(self).wf(),
            old(node).wf(),
        ensures
            final(self).wf(),
            final(node).wf(),
            final(node).carrier() == old(node).carrier(),
            tallied(old(node)@, final(node)@, res),
            match outcome {
                Ok(acked) => {
                    &&& final(self)@ == old(self)@
                    &&& final(node)@ == after_send(old(node)@, true)
                    &&& res == SendAction::Done(acked)
                },
                Err(e) => if old(node)@.retry is Some && old(self)@.failures + 1
                    < old(node)@.retry->0.max_attempts {
                    &&& final(self)@ == (SendView {
                        failures: (old(self)@.failures + 1) as u32,
                        ..old(self)@
                    })
                    &&& final(node)@ == after_retry(old(node)@)
                    &&& res is WaitAndSend
                    &&& res->WaitAndSend_0 == wait_after(
                        old(node)@.retry->0,
                        (old(self)@.failures + 1) as nat,
                        drawn,
                    )
                    &&& res->WaitAndSend_1@ == task_topic_of(old(self)@.making.task.to)
                    &&& res->WaitAndSend_2@ == old(self)@.payload
                } else {
                    &&& final(self)@ == old(self)@
                    &&& final(node)@ == after_exhaustion(old(node)@)
                    &&& res == SendAction::Fail(e)
                },
            },
    {
        match outcome {
            Ok(acked) => {
                let _ = node.task_send_finished(Ok(acked));
                SendAction::Done(acked)
            },
            Err(e) => {
                let failures: u32 = self.failures + 1;
                match node.send_failed(failures, drawn) {
                    Some(delay) => {
                        self.failures = failures;
                        SendAction::WaitAndSend(
                            delay,
                            task_topic(self.making.recipient()),
                            clone_bytes(self.payload.as_slice()),
                        )
                    },
                    None => {
                        match node.task_send_finished(Err(e)) {
                            Err(back) => {
                                assert(node@ =~= after_exhaustion(old(node)@));
                                SendAction::Fail(back)
                            },
                            Ok(acked) => SendAction::Done(acked),
                        }
                    },
                }
            },
        }
    }
}

} // verus!
