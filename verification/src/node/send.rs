//! Sending tasks, alone and within sessions.

use vstd::prelude::*;
use crate::agent::{given, Task};
use crate::clock::now_secs;
use crate::error::NodeError;
use crate::metrics::{counted, Metrics};
use crate::node::{
    looked_up_has_its_id, put_keeps_ceiling, put_keeps_own_ids, LmaoNode, NodeState,
};
use crate::retry::{next_delay, wait_after};
use crate::session::{sessions_stay_bounded, with_task, within_ceiling, Session, SessionView};
use crate::table::{lookup, mapped_keys, mapped_put, with_row};
use crate::text::join3;

verus! {

/// The node after a task was sent, or could not be.
pub open spec fn after_send(st: NodeState, ok: bool) -> NodeState {
    NodeState {
        metrics: Metrics {
            messages_published: counted(st.metrics.messages_published, 1),
            tasks_sent: if ok {
                counted(st.metrics.tasks_sent, 1)
            } else {
                st.metrics.tasks_sent
            },
            tasks_failed: if ok {
                st.metrics.tasks_failed
            } else {
                counted(st.metrics.tasks_failed, 1)
            },
            ..st.metrics
        },
        ..st
    }
}

/// The node after a task could not be sent because something before the sending
/// failed.
pub open spec fn after_failure(st: NodeState) -> NodeState {
    NodeState {
        metrics: Metrics { tasks_failed: counted(st.metrics.tasks_failed, 1), ..st.metrics },
        ..st
    }
}

/// The sessions after a task was noted in one, at the given time.
pub open spec fn with_session_task(
    sessions: Seq<(Seq<char>, SessionView)>,
    session_id: Seq<char>,
    task_id: Seq<char>,
    now: u64,
) -> Seq<(Seq<char>, SessionView)> {
    match lookup(sessions, session_id) {
        Some(s) => with_row(sessions, session_id, with_task(s, task_id, now)),
        None => sessions,
    }
}

/// The message when a session is not known.
pub open spec fn unknown_session(session_id: Seq<char>) -> Seq<char> {
    "Session "@ + session_id + " not found"@
}

impl<T> LmaoNode<T> {
    /// Notes how the sending of a task ended, and passes the outcome on: whether
    /// the task was acknowledged, or the error.
    pub fn task_send_finished(&mut self, outcome: Result<bool, NodeError>) -> (res: Result<
        bool,
        NodeError,
    >)
        requires
            old(self).wf(),
        ensures
            final(self).wf(),
            final(self).carrier() == old(self).carrier(),
            final(self)@ == after_send(old(self)@, outcome is Ok),
            res == outcome,
    {
        Metrics::inc(&mut self.metrics.messages_published);
        match outcome {
            Ok(acked) => {
                Metrics::inc(&mut self.metrics.tasks_sent);
                assert(self@ =~= after_send(old(self)@, true));
                Ok(acked)
            },
            Err(e) => {
                Metrics::inc(&mut self.metrics.tasks_failed);
                assert(self@ =~= after_send(old(self)@, false));
                Err(e)
            },
        }
    }

    /// Notes that a task could not be sent because something before the sending
    /// failed.
    pub fn task_failed(&mut self)
        requires
            old(self).wf(),
        ensures
            final(self).wf(),
            final(self).carrier() == old(self).carrier(),
            final(self)@ == after_failure(old(self)@),
    {
        Metrics::inc(&mut self.metrics.tasks_failed);
        assert(self@ =~= after_failure(old(self)@));
    }

    /// Decides what follows the given number of failed attempts to send: another
    /// attempt after a wait in milliseconds, or none. Without a retry
    /// configuration there is only one attempt. `drawn` is a number drawn at
    /// random.
    pub fn send_failed(&mut self, failures: u32, drawn: u64) -> (res: Option<u64>)
        requires
            old(self).wf(),
            failures >= 1,
        ensures
            final(self).wf(),
            final(self).carrier() == old(self).carrier(),
            match old(self)@.retry {
                Some(cfg) => {
                    &&& res is Some <==> failures < cfg.max_attempts
                    &&& res is Some ==> res->0 == wait_after(cfg, failures as nat, drawn)
                    &&& final(self)@ == (NodeState {
                        metrics: Metrics {
                            retry_attempts: if res is Some {
                                counted(old(self)@.metrics.retry_attempts, 1)
                            } else {
                                old(self)@.metrics.retry_attempts
                            },
                            retries_exhausted: if res is Some {
                                old(self)@.metrics.retries_exhausted
                            } else {
                                counted(old(self)@.metrics.retries_exhausted, 1)
                            },
                            ..old(self)@.metrics
                        },
                        ..old(self)@
                    })
                },
                None => res is None && final(self)@ == old(self)@,
            },
    {
        let delay = match &self.retry_config {
            Some(cfg) => next_delay(cfg, failures, drawn),
            None => return None,
        };
        if delay.is_some() {
            Metrics::inc(&mut self.metrics.retry_attempts);
        } else {
            Metrics::inc(&mut self.metrics.retries_exhausted);
        }
        delay
    }

    /// Creates a task for another agent, to be sent.
    pub fn text_task(&self, to: &str, text: &str) -> (res: Task)
        ensures
            res@ == given(res@.id, self@.card.public_key, to@, text@, None),
            res@.id.len() == 36,
    {
        Task::new(self.pubkey(), to, text)
    }

    /// Creates a task for the peer of a session, to be sent.
    pub fn session_task(&self, session_id: &str, text: &str) -> (res: Result<Task, NodeError>)
        requires
            self.wf(),
        ensures
            match lookup(self@.sessions, session_id@) {
                Some(s) => {
                    &&& res is Ok
                    &&& res->Ok_0@ == given(
                        res->Ok_0@.id,
                        self@.card.public_key,
                        s.peer,
                        text@,
                        Some(session_id@),
                    )
                    &&& res->Ok_0@.id.len() == 36
                },
                None => res is Err && res->Err_0.is_other(unknown_session(session_id@)),
            },
    {
        match self.get_session(session_id) {
            Some(session) => Ok(
                Task::new_in_session(self.pubkey(), session.peer.as_str(), text, session_id),
            ),
            None => Err(NodeError::Other(join3("Session ", session_id, " not found"))),
        }
    }

    /// Notes a task that was sent now in its session. An unknown session is left
    /// alone.
    pub fn note_session_task(&mut self, session_id: &str, task_id: &str)
        requires
            old(self).wf(),
        ensures
            final(self).wf(),
            final(self).carrier() == old(self).carrier(),
            exists|now: u64|
                final(self)@ == (NodeState {
                    sessions: #[trigger] with_session_task(
                        old(self)@.sessions,
                        session_id@,
                        task_id@,
                        now,
                    ),
                    ..old(self)@
                }),
    {
        let now: u64 = now_secs();
        self.note_session_task_at(session_id, task_id, now);
        assert(self@ == (NodeState {
            sessions: with_session_task(old(self)@.sessions, session_id@, task_id@, now),
            ..old(self)@
        }));
    }

    /// Notes a task in a session at the given time. An unknown session is left
    /// alone.
    pub fn note_session_task_at(&mut self, session_id: &str, task_id: &str, now: u64)
        requires
            old(self).wf(),
        ensures
            final(self).wf(),
            final(self).carrier() == old(self).carrier(),
            final(self)@ == (NodeState {
                sessions: with_session_task(old(self)@.sessions, session_id@, task_id@, now),
                ..old(self)@
            }),
    {
        proof {
            mapped_keys(self.sessions@, |s: Session| s@, session_id@);
        }
        if let Some(i) = self.sessions.find(session_id) {
            let mut session = self.sessions.value_at(i).clone();
            proof {
                assert(within_ceiling(self@.sessions[i as int].1));
                sessions_stay_bounded(session@, task_id@, now);
            }
            session.push_task_at(task_id.to_owned(), now);
            proof {
                looked_up_has_its_id(self@.sessions, session_id@);
                put_keeps_own_ids(self@.sessions, session_id@, session@);
                put_keeps_ceiling(self@.sessions, session_id@, session@);
                mapped_put(self.sessions@, |s: Session| s@, session_id@, session);
            }
            self.sessions.set_at(i, session);
        }
    }
}

/// How sending a task ends is counted: a task that went out as sent, one that did not as
/// failed, and either way as a published message; a failure before the sending only as
/// failed. Nothing else changes.
pub proof fn sends_are_counted(st: NodeState, ok: bool)
    ensures
        after_send(st, ok).metrics.messages_published == counted(st.metrics.messages_published, 1),
        ok ==> after_send(st, ok).metrics.tasks_sent == counted(st.metrics.tasks_sent, 1)
            && after_send(st, ok).metrics.tasks_failed == st.metrics.tasks_failed,
        !ok ==> after_send(st, ok).metrics.tasks_sent == st.metrics.tasks_sent && after_send(
            st,
            ok,
        ).metrics.tasks_failed == counted(st.metrics.tasks_failed, 1),
        after_failure(st).metrics.tasks_failed == counted(st.metrics.tasks_failed, 1),
        after_failure(st).metrics.tasks_sent == st.metrics.tasks_sent,
        after_failure(st).metrics.messages_published == st.metrics.messages_published,
        after_send(st, ok).channel == st.channel && after_failure(st).channel == st.channel,
        after_send(st, ok).sessions == st.sessions && after_failure(st).sessions == st.sessions,
{
}

} // verus!
