//! Responding to tasks.

use vstd::prelude::*;
use crate::agent::{answer, first_part, task_topic, task_topic_of, Task, TaskState, TaskView};
use crate::clock::{now_ms, now_secs};
use crate::history::{HistoryEntry, RowView};
use crate::metrics::{counted, Metrics};
use crate::node::delegation::{codex_cid, extract_codex_cid, name_of, or_empty, text_or_empty};
use crate::node::{with_live_peers, LmaoNode, NodeState};

verus! {

/// A response to publish and its topic.
#[derive(Debug)]
pub struct Response {
    pub topic: String,
    pub task: Task,
}

/// The state of a response.
pub open spec fn response_state(failed: bool) -> TaskState {
    if failed {
        TaskState::Failed
    } else {
        TaskState::Completed
    }
}

/// Builds the response to a task: sent back to its sender, completed or failed.
pub fn build_response(task: &Task, body_text: &str, failed: bool) -> (res: Response)
    ensures
        res.task@ == answer(task@, body_text@, response_state(failed)),
        res.topic@ == task_topic_of(task@.from),
{
    let response = if failed {
        task.respond_failed(body_text)
    } else {
        task.respond(body_text)
    };
    Response { topic: task_topic(response.to.as_str()), task: response }
}

/// The node after a response went out.
pub open spec fn after_response(st: NodeState) -> NodeState {
    NodeState {
        metrics: Metrics {
            responses_sent: counted(st.metrics.responses_sent, 1),
            messages_published: counted(st.metrics.messages_published, 1),
            ..st.metrics
        },
        ..st
    }
}

/// The history row for a task that was responded to. Where it failed, the text is
/// the error, and the body is empty.
pub open spec fn response_row(
    st: NodeState,
    task: TaskView,
    body: Seq<char>,
    failed: bool,
    elapsed_ms: u64,
    now: u64,
    written: u64,
) -> RowView {
    RowView {
        task_id: task.id,
        parent_id: ""@,
        created_at_ms: written,
        direction: "received"@,
        peer_pubkey: task.from,
        peer_name: name_of(st.peers, task.from, now),
        capability: ""@,
        text: or_empty(first_part(task.message)),
        body: if failed {
            ""@
        } else {
            body
        },
        cid: codex_cid(
            if failed {
                ""@
            } else {
                body
            },
        ),
        success: !failed,
        error: if failed {
            Some(body)
        } else {
            None
        },
        elapsed_ms,
        session_id: or_empty(task.session_id),
    }
}

impl<T> LmaoNode<T> {
    /// Notes that a response went out, and returns the history row for it, where
    /// a history is kept; peers out of date are then evicted.
    pub fn response_sent(
        &mut self,
        task: &Task,
        body_text: &str,
        failed: bool,
        elapsed_ms: u64,
    ) -> (res: Option<HistoryEntry>)
        requires
            old(self).wf(),
        ensures
            final(self).wf(),
            final(self).carrier() == old(self).carrier(),
            res is Some <==> old(self)@.keeps_history,
            res is None ==> final(self)@ == after_response(old(self)@),
            res is Some ==> exists|now: u64, written: u64|
                res->0@ == #[trigger] response_row(
                    old(self)@,
                    task@,
                    body_text@,
                    failed,
                    elapsed_ms,
                    now,
                    written,
                ) && final(self)@ == with_live_peers(after_response(old(self)@), now),
    {
        Metrics::inc(&mut self.metrics.responses_sent);
        Metrics::inc(&mut self.metrics.messages_published);
        assert(self@ =~= after_response(old(self)@));
        if !self.keeps_history {
            return None;
        }
        let now: u64 = now_secs();
        let written: u64 = now_ms();
        let row = self.response_row_at(task, body_text, failed, elapsed_ms, now, written);
        assert(row@ == response_row(
            old(self)@,
            task@,
            body_text@,
            failed,
            elapsed_ms,
            now,
            written,
        ));
        Some(row)
    }

    /// The history row for a task that was responded to. The peer's name is the
    /// one by which it is known at the time `now`, in seconds; peers out of date by
    /// then are evicted.
    pub fn response_row_at(
        &mut self,
        task: &Task,
        body_text: &str,
        failed: bool,
        elapsed_ms: u64,
        now: u64,
        written: u64,
    ) -> (res: HistoryEntry)
        requires
            old(self).wf(),
        ensures
            final(self).wf(),
            final(self).carrier() == old(self).carrier(),
            final(self)@ == with_live_peers(old(self)@, now),
            res@ == response_row(old(self)@, task@, body_text@, failed, elapsed_ms, now, written),
    {
        let text = match task.text() {
            Some(t) => t.to_owned(),
            None => "".to_owned(),
        };
        let (body, error) = if failed {
            ("".to_owned(), Some(body_text.to_owned()))
        } else {
            (body_text.to_owned(), None)
        };
        let cid = extract_codex_cid(body.as_str());
        HistoryEntry {
            task_id: task.id.clone(),
            parent_id: "".to_owned(),
            created_at_ms: written,
            direction: "received".to_owned(),
            peer_pubkey: task.from.clone(),
            peer_name: self.known_name(task.from.as_str(), now),
            capability: "".to_owned(),
            text,
            body,
            cid,
            success: !failed,
            error,
            elapsed_ms,
            session_id: text_or_empty(&task.session_id),
        }
    }
}

} // verus!
