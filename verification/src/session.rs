//! Multi-turn conversation sessions between agents.

use vstd::prelude::*;
use crate::clock::now_secs;
use crate::sds::state::last_items;
use crate::text::{clone_texts, contains_text, texts};
use crate::unique::fresh_id;

verus! {

/// A multi-turn conversation session between two agents.
#[derive(Debug)]
pub struct Session {
    /// Unique session identifier.
    pub id: String,
    /// Public key of the remote peer in this session.
    pub peer: String,
    /// Identifiers of the tasks exchanged within this session, oldest first;
    /// only the last [`Session::MAX_TASK_IDS`] are kept.
    pub task_ids: Vec<String>,
    /// Unix time in seconds when this session was created.
    pub created_at: u64,
    /// Unix time in seconds of the most recent task seen in this session.
    pub last_seen: u64,
}

/// What a [`Session`] says.
#[verifier::ext_equal]
pub struct SessionView {
    pub id: Seq<char>,
    pub peer: Seq<char>,
    pub task_ids: Seq<Seq<char>>,
    pub created_at: u64,
    pub last_seen: u64,
}

impl View for Session {
    type V = SessionView;

    open spec fn view(&self) -> SessionView {
        SessionView {
            id: self.id@,
            peer: self.peer@,
            task_ids: texts(self.task_ids@),
            created_at: self.created_at,
            last_seen: self.last_seen,
        }
    }
}

impl Clone for Session {
    fn clone(&self) -> (res: Session)
        ensures
            res@ == self@,
    {
        Session {
            id: self.id.clone(),
            peer: self.peer.clone(),
            task_ids: clone_texts(&self.task_ids),
            created_at: self.created_at,
            last_seen: self.last_seen,
        }
    }
}

/// The session that begins at the given time.
pub open spec fn begun(id: Seq<char>, peer: Seq<char>, now: u64) -> SessionView {
    SessionView { id, peer, task_ids: seq![], created_at: now, last_seen: now }
}

/// The session after a task was seen in it at the given time: a new task is
/// added to the end, of which the last ones are kept.
pub open spec fn with_task(s: SessionView, task_id: Seq<char>, now: u64) -> SessionView {
    SessionView {
        task_ids: if s.task_ids.contains(task_id) {
            s.task_ids
        } else {
            last_items(s.task_ids.push(task_id), Session::MAX_TASK_IDS as nat)
        },
        last_seen: now,
        ..s
    }
}

/// Whether a session keeps no more task identifiers than its ceiling, and none
/// twice.
pub open spec fn within_ceiling(s: SessionView) -> bool {
    s.task_ids.len() <= Session::MAX_TASK_IDS && s.task_ids.no_duplicates()
}

/// The session after tasks were seen in it, each at its time.
pub open spec fn with_tasks(s: SessionView, seen: Seq<(Seq<char>, u64)>) -> SessionView
    decreases seen.len(),
{
    if seen.len() == 0 {
        s
    } else {
        with_task(with_tasks(s, seen.drop_last()), seen.last().0, seen.last().1)
    }
}

/// The identifiers of tasks that were seen.
pub open spec fn seen_ids(seen: Seq<(Seq<char>, u64)>) -> Seq<Seq<char>> {
    Seq::new(seen.len(), |i: int| seen[i].0)
}

impl Session {
    /// How many task identifiers a session keeps.
    pub const MAX_TASK_IDS: usize = 64;

    /// A session with a given identifier that begins at the given time.
    pub fn starting(id: String, peer: &str, now: u64) -> (res: Session)
        ensures
            res@ == begun(id@, peer@, now),
    {
        let res = Session {
            id,
            peer: peer.to_owned(),
            task_ids: Vec::new(),
            created_at: now,
            last_seen: now,
        };
        assert(res@.task_ids =~= seq![]);
        res
    }

    /// A session with a fresh identifier that begins now.
    pub fn new(peer: &str) -> (res: Session)
        ensures
            res@ == begun(res@.id, peer@, res@.created_at),
            res@.id.len() == 36,
    {
        Session::starting(fresh_id(), peer, now_secs())
    }

    /// Notes a task that is seen now.
    pub fn push_task(&mut self, task_id: String)
        ensures
            exists|now: u64| final(self)@ == #[trigger] with_task(old(self)@, task_id@, now),
    {
        let now: u64 = now_secs();
        self.push_task_at(task_id, now);
        assert(self@ == with_task(old(self)@, task_id@, now));
    }

    /// Notes a task that is seen at the given time.
    pub fn push_task_at(&mut self, task_id: String, now: u64)
        ensures
            final(self)@ == with_task(old(self)@, task_id@, now),
    {
        if !contains_text(&self.task_ids, task_id.as_str()) {
            let ghost before = texts(self.task_ids@);
            self.task_ids.push(task_id);
            let ghost full = texts(self.task_ids@);
            assert(full =~= before.push(task_id@));
            while self.task_ids.len() > Session::MAX_TASK_IDS
                invariant
                    self.task_ids@.len() <= full.len(),
                    full.len() <= Session::MAX_TASK_IDS ==> self.task_ids@.len() == full.len(),
                    full.len() > Session::MAX_TASK_IDS ==> self.task_ids@.len()
                        >= Session::MAX_TASK_IDS,
                    texts(self.task_ids@) == full.subrange(
                        full.len() - self.task_ids@.len(),
                        full.len() as int,
                    ),
                    self.id == old(self).id,
                    self.peer == old(self).peer,
                    self.created_at == old(self).created_at,
                decreases self.task_ids@.len(),
            {
                let ghost prior = self.task_ids@;
                let _ = self.task_ids.remove(0);
                assert forall|k: int| 0 <= k < self.task_ids@.len() implies (
                #[trigger] self.task_ids@[k])@ == full[full.len() - self.task_ids@.len() + k] by {
                    assert(self.task_ids@[k] == prior[k + 1]);
                    assert(texts(prior)[k + 1] == full[full.len() - prior.len() + k + 1]);
                }
                assert(texts(self.task_ids@) =~= full.subrange(
                    full.len() - self.task_ids@.len(),
                    full.len() as int,
                ));
            }
            assert(texts(self.task_ids@) =~= last_items(full, Session::MAX_TASK_IDS as nat));
        }
        self.last_seen = now;
    }
}

/// A session never keeps more task identifiers than its ceiling, keeps none
/// twice, and has the task that was just noted.
pub proof fn sessions_stay_bounded(s: SessionView, task_id: Seq<char>, now: u64)
    requires
        within_ceiling(s),
    ensures
        within_ceiling(with_task(s, task_id, now)),
        with_task(s, task_id, now).task_ids.contains(task_id),
{
    let out = with_task(s, task_id, now).task_ids;
    if !s.task_ids.contains(task_id) {
        let full = s.task_ids.push(task_id);
        let cut = full.len() - out.len();
        assert forall|i: int| 0 <= i < out.len() implies #[trigger] out[i] == full[i + cut] by {}
        assert(out[out.len() - 1] == task_id);
        assert forall|i: int, j: int| 0 <= i < out.len() && 0 <= j < out.len() && i != j implies out[i]
            != out[j] by {
            let a = full[i + cut];
            let b = full[j + cut];
            assert(out[i] == a && out[j] == b);
            if i + cut < s.task_ids.len() && j + cut < s.task_ids.len() {
                assert(a == s.task_ids[i + cut]);
                assert(b == s.task_ids[j + cut]);
            } else if i + cut < s.task_ids.len() {
                assert(a == s.task_ids[i + cut]);
            } else if j + cut < s.task_ids.len() {
                assert(b == s.task_ids[j + cut]);
            }
        }
    }
}

/// A session of many tasks keeps the last ones: as long as all of them differ, it
/// holds the identifiers of the last tasks up to the ceiling, in the order in which
/// they were seen, the newest at the end. Older ones are gone. It was last seen
/// with the last task.
pub proof fn the_last_tasks_are_kept(s: SessionView, seen: Seq<(Seq<char>, u64)>)
    requires
        s.task_ids.len() <= Session::MAX_TASK_IDS,
        (s.task_ids + seen_ids(seen)).no_duplicates(),
    ensures
        with_tasks(s, seen) == (SessionView {
            task_ids: last_items(s.task_ids + seen_ids(seen), Session::MAX_TASK_IDS as nat),
            last_seen: if seen.len() == 0 {
                s.last_seen
            } else {
                seen.last().1
            },
            ..s
        }),
        seen.len() > 0 ==> with_tasks(s, seen).task_ids.len() > 0 && with_tasks(
            s,
            seen,
        ).task_ids.last() == seen.last().0,
        forall|i: int|
            0 <= i < s.task_ids.len() + seen.len() - Session::MAX_TASK_IDS ==> !with_tasks(
                s,
                seen,
            ).task_ids.contains(#[trigger] (s.task_ids + seen_ids(seen))[i]),
    decreases seen.len(),
{
    let all = s.task_ids + seen_ids(seen);
    let max = Session::MAX_TASK_IDS as nat;
    if seen.len() == 0 {
        assert(all =~= s.task_ids);
    } else {
        let head = seen.drop_last();
        let before = s.task_ids + seen_ids(head);
        let last = seen.last();
        assert(before.push(last.0) =~= all);
        assert(before.no_duplicates()) by {
            assert forall|i: int, j: int|
                0 <= i < before.len() && 0 <= j < before.len() && i != j implies before[i]
                != before[j] by {
                assert(all[i] == before[i] && all[j] == before[j]);
            }
        }
        the_last_tasks_are_kept(s, head);
        let kept = with_tasks(s, head).task_ids;
        assert(kept == last_items(before, max));
        let cut = before.len() - kept.len();
        assert(!kept.contains(last.0)) by {
            if kept.contains(last.0) {
                let i = choose|i: int| 0 <= i < kept.len() && kept[i] == last.0;
                assert(all[i + cut] == last.0);
                assert(all[all.len() - 1] == last.0);
            }
        }
        assert(last_items(kept.push(last.0), max) =~= last_items(all, max));
    }
    let out = last_items(all, max);
    let cut = all.len() - out.len();
    assert(with_tasks(s, seen).task_ids == out);
    if seen.len() > 0 {
        assert(out.last() == all[all.len() - 1]);
    }
    assert forall|i: int| 0 <= i < all.len() - max implies !out.contains(#[trigger] all[i]) by {
        if out.contains(all[i]) {
            let k = choose|k: int| 0 <= k < out.len() && out[k] == all[i];
            assert(all[k + cut] == all[i]);
        }
    }
}

/// A session begins with its peer and without tasks, at the time at which it begins.
pub proof fn a_session_begins_empty(id: Seq<char>, peer: Seq<char>, now: u64)
    ensures
        begun(id, peer, now).id == id,
        begun(id, peer, now).peer == peer,
        begun(id, peer, now).task_ids.len() == 0,
        begun(id, peer, now).created_at == now,
        begun(id, peer, now).last_seen == now,
{
}

/// Noting a task leaves who the session is with and when it began; a task that was
/// noted before is not noted again, but the session was seen.
pub proof fn a_task_is_noted_once(s: SessionView, task_id: Seq<char>, now: u64)
    ensures
        with_task(s, task_id, now).id == s.id,
        with_task(s, task_id, now).peer == s.peer,
        with_task(s, task_id, now).created_at == s.created_at,
        with_task(s, task_id, now).last_seen == now,
        s.task_ids.contains(task_id) ==> with_task(s, task_id, now).task_ids == s.task_ids,
        !s.task_ids.contains(task_id) && s.task_ids.len() < 64 ==> with_task(
            s,
            task_id,
            now,
        ).task_ids == s.task_ids.push(task_id),
        !s.task_ids.contains(task_id) && s.task_ids.len() == 64 ==> with_task(
            s,
            task_id,
            now,
        ).task_ids == s.task_ids.drop_first().push(task_id),
{
    if s.task_ids.len() == 64 {
        assert(last_items(s.task_ids.push(task_id), 64) =~= s.task_ids.drop_first().push(task_id));
    }
}

} // verus!
