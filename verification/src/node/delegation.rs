//! Delegation: which peer gets a subtask, and what came of it.

use vstd::prelude::*;
use crate::agent::{first_part, given, tasks, Task, TaskState, TaskView};
use crate::clock::{now_ms, now_secs};
use crate::error::NodeError;
use crate::history::{HistoryEntry, RowView};
use crate::load::{LoadBucket, LoadStatus};
use crate::metrics::{counted, Metrics};
use crate::node::{with_live_peers, LmaoNode, NodeState};
use crate::order::{ascending, placed, placed_is_insert, sorted_by, sorted_by_sorts};
use crate::presence::{capable_rows, live_entry, live_rows, peer_rows, PeerInfo, PeerRows, PeerView};
use crate::text::{
    alphanumeric_after, alphanumeric_start, clone_opt_text, decimal, decimal_text, join3, last_at,
    opt_text, same_text, stands_at, texts,
};
use crate::trust::{mode_name, trusts, trusts_for, TrustMode, TrustView};

verus! {

/// Time limit of a delegation that names none, in seconds.
pub const DEFAULT_DELEGATION_TIMEOUT_SECS: u64 = 30;

/// The mark before a content identifier in a response.
pub const CODEX_MARK: &'static str = "codex://";

/// How a peer is chosen.
#[derive(Debug)]
pub enum DelegationStrategy {
    /// The least busy trusted peer.
    FirstAvailable,
    /// The least busy peer that offers a capability and is trusted for it.
    CapabilityMatch { capability: String },
    /// Every trusted peer.
    BroadcastCollect,
    /// The least busy peers in turn.
    RoundRobin,
}

/// A subtask to delegate.
#[derive(Debug)]
pub struct DelegationRequest {
    pub parent_task_id: String,
    pub subtask_text: String,
    pub strategy: DelegationStrategy,
    /// Time limit in seconds; zero stands for the default.
    pub timeout_secs: u64,
    pub session_id: Option<String>,
}

/// What came of a delegation.
#[derive(Debug)]
pub struct DelegationResult {
    pub parent_task_id: String,
    pub subtask_id: String,
    pub agent_id: String,
    pub result_text: Option<String>,
    pub success: bool,
    pub error: Option<String>,
}

/// What a [`DelegationResult`] says.
#[verifier::ext_equal]
pub struct ResultView {
    pub parent_task_id: Seq<char>,
    pub subtask_id: Seq<char>,
    pub agent_id: Seq<char>,
    pub result_text: Option<Seq<char>>,
    pub success: bool,
    pub error: Option<Seq<char>>,
}

impl View for DelegationResult {
    type V = ResultView;

    open spec fn view(&self) -> ResultView {
        ResultView {
            parent_task_id: self.parent_task_id@,
            subtask_id: self.subtask_id@,
            agent_id: self.agent_id@,
            result_text: opt_text(self.result_text),
            success: self.success,
            error: opt_text(self.error),
        }
    }
}

impl Clone for DelegationResult {
    fn clone(&self) -> (res: DelegationResult)
        ensures
            res@ == self@,
    {
        DelegationResult {
            parent_task_id: self.parent_task_id.clone(),
            subtask_id: self.subtask_id.clone(),
            agent_id: self.agent_id.clone(),
            result_text: clone_opt_text(&self.result_text),
            success: self.success,
            error: clone_opt_text(&self.error),
        }
    }
}

/// A delegation that was decided: the peer, the time limit and the task to
/// publish.
#[derive(Debug)]
pub struct Delegation {
    pub peer_id: String,
    pub timeout_secs: u64,
    pub task: Task,
}

/// The rank of a peer by its last known load: free, busy, unknown, full.
pub open spec fn rank_of(load: Option<LoadStatus>) -> int {
    match load {
        Some(l) => match l.bucket {
            LoadBucket::Free => 0,
            LoadBucket::Busy => 1,
            LoadBucket::Full => 3,
        },
        None => 2,
    }
}

/// The rank of a peer by its last known load.
pub fn load_rank(info: &PeerInfo) -> (res: u8)
    ensures
        res == rank_of(info@.load),
{
    match &info.load {
        Some(l) => match l.bucket {
            LoadBucket::Free => 0,
            LoadBucket::Busy => 1,
            LoadBucket::Full => 3,
        },
        None => 2,
    }
}

/// The key that puts less busy peers first.
pub open spec fn rank_key() -> spec_fn((Seq<char>, PeerView)) -> int {
    |row: (Seq<char>, PeerView)| rank_of(row.1.load)
}

/// Peers with the less busy ones first; peers of one rank keep their order.
pub open spec fn by_rank(rows: PeerRows) -> PeerRows {
    sorted_by(rows, rank_key())
}

/// Whether a peer counts as trusted: for a capability, where one is asked for.
pub open spec fn counts_for(trust: TrustView, id: Seq<char>, capability: Option<Seq<char>>) -> bool {
    match capability {
        Some(cap) => trusts_for(trust, id, cap),
        None => trusts(trust, id),
    }
}

/// The first peer that counts as trusted, for a capability where one is asked for.
pub open spec fn first_trusted(
    rows: PeerRows,
    trust: TrustView,
    capability: Option<Seq<char>>,
) -> Option<Seq<char>>
    decreases rows.len(),
{
    if rows.len() == 0 {
        None
    } else if counts_for(trust, rows[0].0, capability) {
        Some(rows[0].0)
    } else {
        first_trusted(rows.drop_first(), trust, capability)
    }
}

/// The lowest rank among peers; without peers, that of an unknown load.
pub open spec fn best_rank(rows: PeerRows) -> int
    decreases rows.len(),
{
    if rows.len() == 0 {
        2
    } else if rows.len() == 1 {
        rank_of(rows[0].1.load)
    } else {
        let before = best_rank(rows.drop_last());
        let last = rank_of(rows.last().1.load);
        if last < before {
            last
        } else {
            before
        }
    }
}

/// The keys of the trusted peers of one rank, in order.
pub open spec fn tier(rows: PeerRows, rank: int, trust: TrustView) -> Seq<Seq<char>>
    decreases rows.len(),
{
    if rows.len() == 0 {
        seq![]
    } else {
        let before = tier(rows.drop_last(), rank, trust);
        let last = rows.last();
        if rank_of(last.1.load) == rank && trusts(trust, last.0) {
            before.push(last.0)
        } else {
            before
        }
    }
}

/// The keys of the peers that count as trusted, for a capability where one is
/// asked for, in order.
pub open spec fn trusted_keys(
    rows: PeerRows,
    trust: TrustView,
    capability: Option<Seq<char>>,
) -> Seq<Seq<char>>
    decreases rows.len(),
{
    if rows.len() == 0 {
        seq![]
    } else {
        let before = trusted_keys(rows.drop_last(), trust, capability);
        if counts_for(trust, rows.last().0, capability) {
            before.push(rows.last().0)
        } else {
            before
        }
    }
}

/// The message when nobody can be chosen: either nobody is there, or the trust
/// list let nobody through, which the message then says.
pub open spec fn nobody_text(mode: TrustMode, candidates: nat, capability: Option<Seq<char>>) -> Seq<
    char,
> {
    let what = match capability {
        Some(cap) => "with capability '"@ + cap + "'"@,
        None => "available"@,
    };
    if candidates > 0 && mode != TrustMode::Off {
        (if capability is Some {
            "no live peers "@
        } else {
            "no trusted peers "@
        }) + what + " for delegation: "@ + decimal(candidates)
            + " live peer(s) all filtered by trust list (mode="@ + mode_name(mode)
            + "). Add them with `lmao trust add <pubkey>` or pass `--trust-file <path>` to use a different list."@
    } else {
        "no live peers "@ + what + " for delegation"@
    }
}

/// The capability that is asked for, if any.
pub open spec fn opt_str(capability: Option<&str>) -> Option<Seq<char>> {
    match capability {
        Some(c) => Some(c@),
        None => None,
    }
}

/// The error when nobody can be chosen.
fn no_trusted_peers_err(mode: TrustMode, candidates: usize, capability: Option<&str>) -> (res:
    NodeError)
    ensures
        res.is_other(
            nobody_text(
                mode,
                candidates as nat,
                opt_str(capability),
            ),
        ),
{
    let what = match capability {
        Some(cap) => join3("with capability '", cap, "'"),
        None => "available".to_owned(),
    };
    let filtered = match mode {
        TrustMode::Off => false,
        _ => candidates > 0,
    };
    if filtered {
        let who = if capability.is_some() {
            "no live peers "
        } else {
            "no trusted peers "
        };
        let start = join3(who, what.as_str(), " for delegation: ");
        let count = decimal_text(candidates as u64);
        let middle = join3(
            start.as_str(),
            count.as_str(),
            " live peer(s) all filtered by trust list (mode=",
        );
        NodeError::Other(
            join3(
                middle.as_str(),
                mode.name(),
                "). Add them with `lmao trust add <pubkey>` or pass `--trust-file <path>` to use a different list.",
            ),
        )
    } else {
        NodeError::Other(join3("no live peers ", what.as_str(), " for delegation"))
    }
}

/// Which peer a strategy chooses at the given time, or the message when there is
/// none.
pub open spec fn chosen(st: NodeState, strategy: DelegationStrategy, now: u64) -> Result<
    Seq<char>,
    Seq<char>,
> {
    match strategy {
        DelegationStrategy::FirstAvailable => {
            let live = live_rows(st.peers, now);
            match first_trusted(by_rank(live), st.trust, None) {
                Some(id) => Ok(id),
                None => Err(nobody_text(st.trust.mode, live.len(), None)),
            }
        },
        DelegationStrategy::CapabilityMatch { capability } => {
            let live = capable_rows(st.peers, capability@, now);
            match first_trusted(by_rank(live), st.trust, Some(capability@)) {
                Some(id) => Ok(id),
                None => Err(nobody_text(st.trust.mode, live.len(), Some(capability@))),
            }
        },
        DelegationStrategy::BroadcastCollect => {
            match first_trusted(by_rank(live_rows(st.peers, now)), st.trust, None) {
                Some(id) => Ok(id),
                None => Err("no live peers available for broadcast delegation"@),
            }
        },
        DelegationStrategy::RoundRobin => {
            let live = live_rows(st.peers, now);
            let choice = tier(live, best_rank(live), st.trust);
            if choice.len() == 0 {
                Err("no live peers available for round-robin delegation"@)
            } else {
                Ok(choice[(st.round_robin as nat % choice.len()) as int])
            }
        },
    }
}

/// The node after a peer was chosen: peers out of date are evicted, and a
/// round-robin choice moves its counter on.
pub open spec fn after_choice(st: NodeState, strategy: DelegationStrategy, now: u64) -> NodeState {
    let live = with_live_peers(st, now);
    if strategy is RoundRobin && chosen(st, strategy, now) is Ok {
        NodeState {
            round_robin: if st.round_robin == usize::MAX {
                0
            } else {
                (st.round_robin + 1) as usize
            },
            ..live
        }
    } else {
        live
    }
}

/// The time limit that a request stands for.
pub open spec fn time_limit(timeout_secs: u64) -> u64 {
    if timeout_secs == 0 {
        DEFAULT_DELEGATION_TIMEOUT_SECS
    } else {
        timeout_secs
    }
}

/// The time limit that a request stands for.
pub fn effective_timeout(request: &DelegationRequest) -> (res: u64)
    ensures
        res == time_limit(request.timeout_secs),
{
    if request.timeout_secs == 0 {
        DEFAULT_DELEGATION_TIMEOUT_SECS
    } else {
        request.timeout_secs
    }
}

/// The session that a subtask belongs to: an empty identifier stands for none.
pub open spec fn subtask_session(session_id: Option<Seq<char>>) -> Option<Seq<char>> {
    match session_id {
        Some(sid) => if sid.len() > 0 {
            Some(sid)
        } else {
            None
        },
        None => None,
    }
}

/// The subtask for a peer.
pub open spec fn subtask(from: Seq<char>, request: DelegationRequest, peer: Seq<char>, id: Seq<char>) -> TaskView {
    given(
        id,
        from,
        peer,
        request.subtask_text@,
        subtask_session(opt_text(request.session_id)),
    )
}

/// The node after delegations were sent.
pub open spec fn delegated(st: NodeState, n: nat) -> NodeState {
    NodeState {
        metrics: Metrics {
            delegations_sent: counted(st.metrics.delegations_sent, n),
            ..st.metrics
        },
        ..st
    }
}

/// Puts a peer into a list with the less busy ones first, behind peers of the
/// same rank.
fn insert_by_rank(sorted: &mut Vec<(String, PeerInfo)>, peer: (String, PeerInfo))
    requires
        ascending(peer_rows(old(sorted)@), rank_key()),
    ensures
        peer_rows(final(sorted)@) == placed(
            peer_rows(old(sorted)@),
            (peer.0@, peer.1@),
            rank_key(),
        ),
{
    let ghost all = peer_rows(sorted@);
    let ghost row = (peer.0@, peer.1@);
    let rank: u8 = load_rank(&peer.1);
    let mut p: usize = sorted.len();
    while p > 0 && load_rank(&sorted[p - 1].1) > rank
        invariant
            p <= sorted@.len(),
            all == peer_rows(sorted@),
            row == (peer.0@, peer.1@),
            rank == rank_of(peer.1@.load),
            forall|i: int| p <= i < all.len() ==> rank_key()(#[trigger] all[i]) > rank_key()(row),
        decreases p,
    {
        p = p - 1;
    }
    proof {
        if p > 0 {
            assert(all[p - 1] == (sorted@[p - 1].0@, sorted@[p - 1].1@));
        }
        placed_is_insert(all, row, rank_key(), p as int);
    }
    sorted.insert(p, peer);
    assert(peer_rows(sorted@) =~= all.insert(p as int, row));
}

/// Sorts peers with the less busy ones first.
fn sort_by_rank(peers: Vec<(String, PeerInfo)>) -> (res: Vec<(String, PeerInfo)>)
    ensures
        peer_rows(res@) == by_rank(peer_rows(peers@)),
{
    let ghost all = peer_rows(peers@);
    let mut sorted: Vec<(String, PeerInfo)> = Vec::new();
    assert(all.take(0) =~= seq![]);
    assert(peer_rows(sorted@) =~= seq![]);
    for peer in it: peers
        invariant
            it.seq().len() == all.len(),
            all == peer_rows(it.seq()),
            peer_rows(sorted@) == by_rank(all.take(it.index() as int)),
    {
        proof {
            let i = it.index() as int;
            assert(all.take(i + 1).drop_last() =~= all.take(i));
            assert(all.take(i + 1).last() == all[i]);
            sorted_by_sorts(all.take(i), rank_key());
        }
        insert_by_rank(&mut sorted, peer);
    }
    assert(all.take(all.len() as int) =~= all);
    sorted
}

impl<T> LmaoNode<T> {
    /// Whether a peer counts as trusted: for a capability, where one is asked for.
    fn counts(&self, id: &str, capability: Option<&str>) -> (res: bool)
        ensures
            res == counts_for(self@.trust, id@, opt_str(capability)),
    {
        match capability {
            Some(cap) => self.is_trusted_for(id, cap),
            None => self.is_trusted(id),
        }
    }

    /// The first peer that counts as trusted, for a capability where one is asked
    /// for.
    fn find_trusted(&self, peers: &Vec<(String, PeerInfo)>, capability: Option<&str>) -> (res:
        Option<String>)
        ensures
            opt_text(res) == first_trusted(
                peer_rows(peers@),
                self@.trust,
                opt_str(capability),
            ),
    {
        let ghost all = peer_rows(peers@);
        let ghost cap = opt_str(capability);
        let mut i: usize = 0;
        assert(all.skip(0) =~= all);
        while i < peers.len()
            invariant
                0 <= i <= peers.len(),
                all == peer_rows(peers@),
                cap == opt_str(capability),
                first_trusted(all, self@.trust, cap) == first_trusted(
                    all.skip(i as int),
                    self@.trust,
                    cap,
                ),
            decreases peers.len() - i,
        {
            assert(all.skip(i as int)[0] == all[i as int]);
            if self.counts(peers[i].0.as_str(), capability) {
                return Some(peers[i].0.clone());
            }
            assert(all.skip(i as int).drop_first() =~= all.skip(i + 1));
            i = i + 1;
        }
        None
    }

    /// The keys of the peers that count as trusted, for a capability where one is
    /// asked for.
    fn all_trusted(&self, peers: &Vec<(String, PeerInfo)>, capability: Option<&str>) -> (res: Vec<
        String,
    >)
        ensures
            texts(res@) == trusted_keys(peer_rows(peers@), self@.trust, opt_str(capability)),
    {
        let ghost all = peer_rows(peers@);
        let ghost cap = opt_str(capability);
        let mut out: Vec<String> = Vec::new();
        let mut i: usize = 0;
        assert(texts(out@) =~= seq![]);
        assert(all.take(0) =~= seq![]);
        while i < peers.len()
            invariant
                0 <= i <= peers.len(),
                all == peer_rows(peers@),
                cap == opt_str(capability),
                texts(out@) == trusted_keys(all.take(i as int), self@.trust, cap),
            decreases peers.len() - i,
        {
            let ghost found = texts(out@);
            assert(all.take(i + 1).drop_last() =~= all.take(i as int));
            assert(all.take(i + 1).last() == all[i as int]);
            if self.counts(peers[i].0.as_str(), capability) {
                out.push(peers[i].0.clone());
                assert(texts(out@) =~= found.push(peers@[i as int].0@));
            }
            i = i + 1;
        }
        assert(all.take(all.len() as int) =~= all);
        out
    }

    /// The keys of the trusted peers of the lowest rank.
    fn best_tier(&self, peers: &Vec<(String, PeerInfo)>) -> (res: Vec<String>)
        ensures
            texts(res@) == tier(
                peer_rows(peers@),
                best_rank(peer_rows(peers@)),
                self@.trust,
            ),
    {
        let ghost all = peer_rows(peers@);
        let mut best: u8 = 2;
        let mut i: usize = 0;
        assert(all.take(0) =~= seq![]);
        while i < peers.len()
            invariant
                0 <= i <= peers.len(),
                all == peer_rows(peers@),
                best == best_rank(all.take(i as int)),
            decreases peers.len() - i,
        {
            assert(all.take(i + 1).drop_last() =~= all.take(i as int));
            assert(all.take(i + 1).last() == all[i as int]);
            let rank: u8 = load_rank(&peers[i].1);
            if i == 0 || rank < best {
                best = rank;
            }
            i = i + 1;
        }
        assert(all.take(all.len() as int) =~= all);
        let mut out: Vec<String> = Vec::new();
        let mut j: usize = 0;
        assert(texts(out@) =~= seq![]);
        while j < peers.len()
            invariant
                0 <= j <= peers.len(),
                all == peer_rows(peers@),
                texts(out@) == tier(all.take(j as int), best as int, self@.trust),
            decreases peers.len() - j,
        {
            let ghost found = texts(out@);
            assert(all.take(j + 1).drop_last() =~= all.take(j as int));
            assert(all.take(j + 1).last() == all[j as int]);
            if load_rank(&peers[j].1) == best && self.is_trusted(peers[j].0.as_str()) {
                out.push(peers[j].0.clone());
                assert(texts(out@) =~= found.push(peers@[j as int].0@));
            }
            j = j + 1;
        }
        out
    }

    /// Chooses a peer for a strategy, as things stand at the given time.
    pub fn choose_peer_at(&mut self, strategy: &DelegationStrategy, now: u64) -> (res: Result<
        String,
        NodeError,
    >)
        requires
            old(self).wf(),
        ensures
            final(self).wf(),
            final(self).carrier() == old(self).carrier(),
            final(self)@ == after_choice(old(self)@, *strategy, now),
            match chosen(old(self)@, *strategy, now) {
                Ok(id) => res is Ok && res->Ok_0@ == id,
                Err(text) => res is Err && res->Err_0.is_other(text),
            },
    {
        match strategy {
            DelegationStrategy::FirstAvailable => {
                let peers = sort_by_rank(self.peer_map.all_live_at(now));
                assert(self@ =~= after_choice(old(self)@, *strategy, now));
                proof {
                    sorted_by_sorts(live_rows(old(self)@.peers, now), rank_key());
                }
                match self.find_trusted(&peers, None) {
                    Some(id) => Ok(id),
                    None => Err(no_trusted_peers_err(self.trust_mode(), peers.len(), None)),
                }
            },
            DelegationStrategy::CapabilityMatch { capability } => {
                let peers = sort_by_rank(
                    self.peer_map.find_by_capability_at(capability.as_str(), now),
                );
                assert(self@ =~= after_choice(old(self)@, *strategy, now));
                proof {
                    sorted_by_sorts(
                        capable_rows(old(self)@.peers, capability@, now),
                        rank_key(),
                    );
                }
                match self.find_trusted(&peers, Some(capability.as_str())) {
                    Some(id) => Ok(id),
                    None => Err(
                        no_trusted_peers_err(
                            self.trust_mode(),
                            peers.len(),
                            Some(capability.as_str()),
                        ),
                    ),
                }
            },
            DelegationStrategy::BroadcastCollect => {
                let peers = sort_by_rank(self.peer_map.all_live_at(now));
                assert(self@ =~= after_choice(old(self)@, *strategy, now));
                match self.find_trusted(&peers, None) {
                    Some(id) => Ok(id),
                    None => Err(
                        NodeError::Other(
                            "no live peers available for broadcast delegation".to_owned(),
                        ),
                    ),
                }
            },
            DelegationStrategy::RoundRobin => {
                let live = self.peer_map.all_live_at(now);
                let choice = self.best_tier(&live);
                if choice.len() == 0 {
                    assert(self@ =~= after_choice(old(self)@, *strategy, now));
                    return Err(
                        NodeError::Other(
                            "no live peers available for round-robin delegation".to_owned(),
                        ),
                    );
                }
                let index: usize = self.round_robin_counter % choice.len();
                self.round_robin_counter = self.round_robin_counter.wrapping_add(1);
                assert(texts(choice@)[index as int] == choice@[index as int]@);
                assert(self@ =~= after_choice(old(self)@, *strategy, now));
                Ok(choice[index].clone())
            },
        }
    }

    /// Builds the subtask for a peer, under a fresh identifier.
    fn build_subtask(&self, request: &DelegationRequest, peer: &str) -> (res: Task)
        ensures
            res@ == subtask(self@.card.public_key, *request, peer@, res@.id),
            res@.id.len() == 36,
    {
        if let Some(sid) = &request.session_id {
            if !sid.as_str().is_empty() {
                return Task::new_in_session(
                    self.pubkey(),
                    peer,
                    request.subtask_text.as_str(),
                    sid.as_str(),
                );
            }
        }
        Task::new(self.pubkey(), peer, request.subtask_text.as_str())
    }

    /// Begins the delegation of a subtask to one peer: chooses the peer, counts
    /// the delegation and builds the task to publish.
    pub fn delegate_task(&mut self, request: &DelegationRequest) -> (res: Result<
        Delegation,
        NodeError,
    >)
        requires
            old(self).wf(),
        ensures
            final(self).wf(),
            final(self).carrier() == old(self).carrier(),
            exists|now: u64|
                #[trigger] begins(old(self)@, *request, now, final(self)@, res),
    {
        let now: u64 = now_secs();
        let res = self.delegate_task_at(request, now);
        assert(begins(old(self)@, *request, now, self@, res));
        res
    }

    /// Begins the delegation of a subtask to one peer, as things stand at the
    /// given time.
    pub fn delegate_task_at(&mut self, request: &DelegationRequest, now: u64) -> (res: Result<
        Delegation,
        NodeError,
    >)
        requires
            old(self).wf(),
        ensures
            final(self).wf(),
            final(self).carrier() == old(self).carrier(),
            begins(old(self)@, *request, now, final(self)@, res),
    {
        match self.choose_peer_at(&request.strategy, now) {
            Ok(peer_id) => {
                Metrics::inc(&mut self.metrics.delegations_sent);
                assert(self@ =~= delegated(after_choice(old(self)@, request.strategy, now), 1));
                let task = self.build_subtask(request, peer_id.as_str());
                Ok(Delegation { peer_id, timeout_secs: effective_timeout(request), task })
            },
            Err(e) => Err(e),
        }
    }

    /// Begins the delegation of a subtask to a named peer, which must count as
    /// trusted.
    pub fn delegate_direct(&mut self, request: &DelegationRequest, peer_pubkey: &str) -> (res: Result<
        Delegation,
        NodeError,
    >)
        requires
            old(self).wf(),
        ensures
            final(self).wf(),
            final(self).carrier() == old(self).carrier(),
            trusts(old(self)@.trust, peer_pubkey@) ==> {
                &&& final(self)@ == delegated(old(self)@, 1)
                &&& res is Ok
                &&& res->Ok_0.peer_id@ == peer_pubkey@
                &&& res->Ok_0.timeout_secs == time_limit(request.timeout_secs)
                &&& res->Ok_0.task@ == subtask(
                    old(self)@.card.public_key,
                    *request,
                    peer_pubkey@,
                    res->Ok_0.task@.id,
                )
            },
            !trusts(old(self)@.trust, peer_pubkey@) ==> {
                &&& final(self)@ == old(self)@
                &&& res is Err
                &&& res->Err_0.is_other(blocked_text(peer_pubkey@, old(self)@.trust.mode))
            },
    {
        if !self.is_trusted(peer_pubkey) {
            let start = join3(
                "direct delegation to ",
                peer_pubkey,
                " blocked: peer not on trust list (mode=",
            );
            return Err(
                NodeError::Other(
                    join3(
                        start.as_str(),
                        self.trust_mode().name(),
                        "). Add it with `lmao trust add` or pass an alternate `--trust-file`.",
                    ),
                ),
            );
        }
        Metrics::inc(&mut self.metrics.delegations_sent);
        assert(self@ =~= delegated(old(self)@, 1));
        let task = self.build_subtask(request, peer_pubkey);
        Ok(
            Delegation {
                peer_id: peer_pubkey.to_owned(),
                timeout_secs: effective_timeout(request),
                task,
            },
        )
    }

    /// Begins the delegation of a subtask to every peer that fits: the trusted
    /// peers with the capability for a capability match, or else all trusted
    /// peers. For each, a task is to be published.
    pub fn delegate_broadcast(&mut self, request: &DelegationRequest) -> (res: Result<
        Vec<Delegation>,
        NodeError,
    >)
        requires
            old(self).wf(),
        ensures
            final(self).wf(),
            final(self).carrier() == old(self).carrier(),
            exists|now: u64|
                #[trigger] begins_all(old(self)@, *request, now, final(self)@, res),
    {
        let now: u64 = now_secs();
        let res = self.delegate_broadcast_at(request, now);
        assert(begins_all(old(self)@, *request, now, self@, res));
        res
    }

    /// Begins the delegation of a subtask to every peer that fits, as things
    /// stand at the given time.
    pub fn delegate_broadcast_at(&mut self, request: &DelegationRequest, now: u64) -> (res: Result<
        Vec<Delegation>,
        NodeError,
    >)
        requires
            old(self).wf(),
        ensures
            final(self).wf(),
            final(self).carrier() == old(self).carrier(),
            begins_all(old(self)@, *request, now, final(self)@, res),
    {
        let peers = self.broadcast_peers(&request.strategy, now);
        if peers.len() == 0 {
            return Err(
                NodeError::Other("no live peers available for broadcast delegation".to_owned()),
            );
        }
        Metrics::inc_by(&mut self.metrics.delegations_sent, peers.len() as u64);
        assert(self@ =~= delegated(with_live_peers(old(self)@, now), peers@.len() as nat));
        let timeout_secs: u64 = effective_timeout(request);
        let mut out: Vec<Delegation> = Vec::new();
        let mut i: usize = 0;
        while i < peers.len()
            invariant
                0 <= i <= peers.len(),
                out.len() == i,
                self@.card == old(self)@.card,
                timeout_secs == time_limit(request.timeout_secs),
                forall|k: int|
                    0 <= k < i ==> fits(
                        #[trigger] out@[k],
                        old(self)@,
                        *request,
                        peers@[k]@,
                    ),
            decreases peers.len() - i,
        {
            let task = self.build_subtask(request, peers[i].as_str());
            out.push(Delegation { peer_id: peers[i].clone(), timeout_secs, task });
            i = i + 1;
        }
        assert forall|k: int| 0 <= k < out@.len() implies fits(
            #[trigger] out@[k],
            old(self)@,
            *request,
            broadcast_choice(old(self)@, request.strategy, now)[k],
        ) by {
            assert(texts(peers@)[k] == peers@[k]@);
        }
        Ok(out)
    }

    /// The keys of the peers that a broadcast goes to.
    fn broadcast_peers(&mut self, strategy: &DelegationStrategy, now: u64) -> (res: Vec<String>)
        requires
            old(self).wf(),
        ensures
            final(self).wf(),
            final(self).carrier() == old(self).carrier(),
            final(self)@ == with_live_peers(old(self)@, now),
            texts(res@) == broadcast_choice(old(self)@, *strategy, now),
    {
        match strategy {
            DelegationStrategy::CapabilityMatch { capability } => {
                let peers = self.peer_map.find_by_capability_at(capability.as_str(), now);
                assert(self@ =~= with_live_peers(old(self)@, now));
                self.all_trusted(&peers, Some(capability.as_str()))
            },
            _ => {
                let peers = self.peer_map.all_live_at(now);
                assert(self@ =~= with_live_peers(old(self)@, now));
                self.all_trusted(&peers, None)
            },
        }
    }

    /// The history row for a finished delegation, written now. Peers out of date
    /// are evicted.
    pub fn delegation_row(
        &mut self,
        result: &DelegationResult,
        request: &DelegationRequest,
        elapsed_ms: u64,
    ) -> (res: HistoryEntry)
        requires
            old(self).wf(),
        ensures
            final(self).wf(),
            final(self).carrier() == old(self).carrier(),
            exists|now: u64, written: u64|
                res@ == #[trigger] delegation_row_of(
                    old(self)@,
                    result@,
                    *request,
                    elapsed_ms,
                    now,
                    written,
                ) && final(self)@ == with_live_peers(old(self)@, now),
    {
        let now: u64 = now_secs();
        let written: u64 = now_ms();
        let res = self.delegation_row_at(result, request, elapsed_ms, now, written);
        assert(res@ == delegation_row_of(
            old(self)@,
            result@,
            *request,
            elapsed_ms,
            now,
            written,
        ));
        res
    }

    /// The history row for a finished delegation. The peer's name is the one by
    /// which it is known at the time `now`, in seconds; peers out of date by then
    /// are evicted.
    pub fn delegation_row_at(
        &mut self,
        result: &DelegationResult,
        request: &DelegationRequest,
        elapsed_ms: u64,
        now: u64,
        written: u64,
    ) -> (res: HistoryEntry)
        requires
            old(self).wf(),
        ensures
            final(self).wf(),
            final(self).carrier() == old(self).carrier(),
            final(self)@ == with_live_peers(old(self)@, now),
            res@ == delegation_row_of(old(self)@, result@, *request, elapsed_ms, now, written),
    {
        let body = text_or_empty(&result.result_text);
        let cid = extract_codex_cid(body.as_str());
        HistoryEntry {
            task_id: result.subtask_id.clone(),
            parent_id: result.parent_task_id.clone(),
            created_at_ms: written,
            direction: "delegated".to_owned(),
            peer_pubkey: result.agent_id.clone(),
            peer_name: self.known_name(result.agent_id.as_str(), now),
            capability: capability_of(&request.strategy),
            text: request.subtask_text.clone(),
            body,
            cid,
            success: result.success,
            error: clone_opt_text(&result.error),
            elapsed_ms,
            session_id: text_or_empty(&request.session_id),
        }
    }

    /// The name by which a live peer is known, empty for any other. Peers out of
    /// date are evicted.
    pub(crate) fn known_name(&mut self, agent_id: &str, now: u64) -> (res: String)
        requires
            old(self).wf(),
        ensures
            final(self).wf(),
            final(self).carrier() == old(self).carrier(),
            final(self)@ == with_live_peers(old(self)@, now),
            res@ == name_of(old(self)@.peers, agent_id@, now),
    {
        let entry = self.peer_map.get_at(agent_id, now);
        assert(self@ =~= with_live_peers(old(self)@, now));
        match entry {
            Some(info) => info.name,
            None => "".to_owned(),
        }
    }
}

/// The name by which a live peer is known, empty for any other.
pub open spec fn name_of(peers: PeerRows, agent_id: Seq<char>, now: u64) -> Seq<char> {
    match live_entry(peers, agent_id, now) {
        Some(info) => info.name,
        None => ""@,
    }
}

/// The text, or the empty text where there is none.
pub open spec fn or_empty(text: Option<Seq<char>>) -> Seq<char> {
    match text {
        Some(t) => t,
        None => ""@,
    }
}

pub(crate) fn text_or_empty(text: &Option<String>) -> (res: String)
    ensures
        res@ == or_empty(opt_text(*text)),
{
    match text {
        Some(t) => t.clone(),
        None => "".to_owned(),
    }
}

/// What the beginning of a delegation does and returns.
pub open spec fn begins(
    before: NodeState,
    request: DelegationRequest,
    now: u64,
    after: NodeState,
    res: Result<Delegation, NodeError>,
) -> bool {
    match chosen(before, request.strategy, now) {
        Ok(peer) => {
            &&& after == delegated(after_choice(before, request.strategy, now), 1)
            &&& res is Ok
            &&& fits(res->Ok_0, before, request, peer)
        },
        Err(text) => {
            &&& after == with_live_peers(before, now)
            &&& res is Err
            &&& res->Err_0.is_other(text)
        },
    }
}

/// Whether a delegation is the one of a request to a peer.
pub open spec fn fits(
    d: Delegation,
    st: NodeState,
    request: DelegationRequest,
    peer: Seq<char>,
) -> bool {
    &&& d.peer_id@ == peer
    &&& d.timeout_secs == time_limit(request.timeout_secs)
    &&& d.task@ == subtask(st.card.public_key, request, peer, d.task@.id)
    &&& d.task@.id.len() == 36
}

/// The keys of the peers that a broadcast goes to.
pub open spec fn broadcast_choice(st: NodeState, strategy: DelegationStrategy, now: u64) -> Seq<
    Seq<char>,
> {
    match strategy {
        DelegationStrategy::CapabilityMatch { capability } => trusted_keys(
            capable_rows(st.peers, capability@, now),
            st.trust,
            Some(capability@),
        ),
        _ => trusted_keys(live_rows(st.peers, now), st.trust, None),
    }
}

/// What the beginning of a broadcast does and returns.
pub open spec fn begins_all(
    before: NodeState,
    request: DelegationRequest,
    now: u64,
    after: NodeState,
    res: Result<Vec<Delegation>, NodeError>,
) -> bool {
    let peers = broadcast_choice(before, request.strategy, now);
    if peers.len() == 0 {
        &&& after == with_live_peers(before, now)
        &&& res is Err
        &&& res->Err_0.is_other("no live peers available for broadcast delegation"@)
    } else {
        &&& after == delegated(with_live_peers(before, now), peers.len())
        &&& res is Ok
        &&& res->Ok_0@.len() == peers.len()
        &&& forall|k: int|
            0 <= k < peers.len() ==> fits(#[trigger] res->Ok_0@[k], before, request, peers[k])
    }
}

/// The message when a named peer is not trusted.
pub open spec fn blocked_text(peer: Seq<char>, mode: TrustMode) -> Seq<char> {
    "direct delegation to "@ + peer + " blocked: peer not on trust list (mode="@ + mode_name(mode)
        + "). Add it with `lmao trust add` or pass an alternate `--trust-file`."@
}

/// The first task with an identifier.
pub open spec fn first_task(list: Seq<TaskView>, id: Seq<char>) -> Option<TaskView>
    decreases list.len(),
{
    if list.len() == 0 {
        None
    } else if list[0].id == id {
        Some(list[0])
    } else {
        first_task(list.drop_first(), id)
    }
}

/// The text of a task's result, where it has one.
pub open spec fn result_text_of(task: TaskView) -> Option<Seq<char>> {
    match task.result {
        Some(m) => first_part(m),
        None => None,
    }
}

/// What a response means: a failed task gives its text as the error, any other as
/// the result.
pub open spec fn response_result(
    request: DelegationRequest,
    peer: Seq<char>,
    response: TaskView,
) -> ResultView {
    let success = response.state != TaskState::Failed;
    ResultView {
        parent_task_id: request.parent_task_id@,
        subtask_id: response.id,
        agent_id: peer,
        result_text: if success {
            result_text_of(response)
        } else {
            None
        },
        success,
        error: if success {
            None
        } else {
            result_text_of(response)
        },
    }
}

/// Looks for the response to a subtask among received tasks, and reads what it
/// means.
pub fn match_response(
    request: &DelegationRequest,
    peer_id: &str,
    subtask_id: &str,
    received: &Vec<Task>,
) -> (res: Option<DelegationResult>)
    ensures
        match first_task(tasks(received@), subtask_id@) {
            Some(response) => res is Some && res->0@ == response_result(
                *request,
                peer_id@,
                response,
            ),
            None => res is None,
        },
{
    let ghost all = tasks(received@);
    let mut i: usize = 0;
    assert(all.skip(0) =~= all);
    while i < received.len()
        invariant
            0 <= i <= received.len(),
            all == tasks(received@),
            first_task(all, subtask_id@) == first_task(all.skip(i as int), subtask_id@),
        decreases received.len() - i,
    {
        let task = &received[i];
        assert(all.skip(i as int)[0] == task@);
        if same_text(task.id.as_str(), subtask_id) {
            let body = match task.result_text() {
                Some(t) => Some(t.to_owned()),
                None => None,
            };
            assert(opt_text(body) == result_text_of(task@));
            let success = match task.state {
                TaskState::Failed => false,
                _ => true,
            };
            let (result_text, error) = if success {
                (body, None)
            } else {
                (None, body)
            };
            return Some(
                DelegationResult {
                    parent_task_id: request.parent_task_id.clone(),
                    subtask_id: subtask_id.to_owned(),
                    agent_id: peer_id.to_owned(),
                    result_text,
                    success,
                    error,
                },
            );
        }
        assert(all.skip(i as int).drop_first() =~= all.skip(i + 1));
        i = i + 1;
    }
    None
}

/// A delegation that failed, with the reason.
pub open spec fn failed_result(
    request: DelegationRequest,
    peer: Seq<char>,
    subtask_id: Seq<char>,
    why: Seq<char>,
) -> ResultView {
    ResultView {
        parent_task_id: request.parent_task_id@,
        subtask_id,
        agent_id: peer,
        result_text: None,
        success: false,
        error: Some(why),
    }
}

/// The result when no response came in time.
pub fn timed_out(request: &DelegationRequest, peer_id: &str, subtask_id: &str) -> (res:
    DelegationResult)
    ensures
        res@ == failed_result(*request, peer_id@, subtask_id@, "delegation timed out"@),
{
    DelegationResult {
        parent_task_id: request.parent_task_id.clone(),
        subtask_id: subtask_id.to_owned(),
        agent_id: peer_id.to_owned(),
        result_text: None,
        success: false,
        error: Some("delegation timed out".to_owned()),
    }
}

/// The result, within a broadcast, of a delegation that could not be carried
/// out.
pub fn broadcast_failure(request: &DelegationRequest, peer_id: &str, error: &NodeError) -> (res:
    DelegationResult)
    ensures
        res@ == failed_result(*request, peer_id@, ""@, error.text()),
{
    DelegationResult {
        parent_task_id: request.parent_task_id.clone(),
        subtask_id: "".to_owned(),
        agent_id: peer_id.to_owned(),
        result_text: None,
        success: false,
        error: Some(error.to_string()),
    }
}

/// Whether the time for a response is over.
pub open spec fn over(elapsed_ms: u64, limit_secs: u64) -> bool {
    elapsed_ms >= limit_secs * 1000
}

/// Whether the time for a response is over, so that polling ends.
pub fn time_is_up(elapsed_ms: u64, limit_secs: u64) -> (res: bool)
    ensures
        res == over(elapsed_ms, limit_secs),
{
    elapsed_ms as u128 >= limit_secs as u128 * 1000
}

/// What a wait for a response comes to.
#[derive(Debug)]
pub enum WaitStep {
    /// Poll again after a pause.
    PollAgain,
    /// The delegation is finished.
    Finished(DelegationResult),
}

/// What has come of a subtask, given what was polled and the time that has
/// passed since the subtask went out: the response, or nothing in time, or
/// nothing yet.
pub open spec fn outcome_of(
    request: DelegationRequest,
    peer: Seq<char>,
    subtask_id: Seq<char>,
    elapsed_ms: u64,
    limit_secs: u64,
    received: Seq<TaskView>,
) -> Option<ResultView> {
    match first_task(received, subtask_id) {
        Some(response) => Some(response_result(request, peer, response)),
        None => if over(elapsed_ms, limit_secs) {
            Some(failed_result(request, peer, subtask_id, "delegation timed out"@))
        } else {
            None
        },
    }
}

/// One step of waiting for the response to a subtask: the response ends it, and
/// so does the end of the time. `received` is what was polled, nothing once the
/// time was up before polling.
pub fn wait_step(
    request: &DelegationRequest,
    peer_id: &str,
    subtask_id: &str,
    elapsed_ms: u64,
    limit_secs: u64,
    received: &Vec<Task>,
) -> (res: WaitStep)
    ensures
        match outcome_of(
            *request,
            peer_id@,
            subtask_id@,
            elapsed_ms,
            limit_secs,
            tasks(received@),
        ) {
            Some(result) => res is Finished && res->Finished_0@ == result,
            None => res is PollAgain,
        },
{
    match match_response(request, peer_id, subtask_id, received) {
        Some(result) => WaitStep::Finished(result),
        None => if time_is_up(elapsed_ms, limit_secs) {
            WaitStep::Finished(timed_out(request, peer_id, subtask_id))
        } else {
            WaitStep::PollAgain
        },
    }
}

/// A subtask of a broadcast, with its result once there is one.
#[derive(Debug)]
pub struct Slot {
    pub peer_id: String,
    pub subtask_id: String,
    pub result: Option<DelegationResult>,
}

/// What a [`Slot`] says.
#[verifier::ext_equal]
pub struct SlotView {
    pub peer_id: Seq<char>,
    pub subtask_id: Seq<char>,
    pub result: Option<ResultView>,
}

impl View for Slot {
    type V = SlotView;

    open spec fn view(&self) -> SlotView {
        SlotView {
            peer_id: self.peer_id@,
            subtask_id: self.subtask_id@,
            result: match self.result {
                Some(r) => Some(r@),
                None => None,
            },
        }
    }
}

/// The open slot of a delegation.
pub open spec fn open_slot(d: Delegation) -> SlotView {
    SlotView { peer_id: d.peer_id@, subtask_id: d.task@.id, result: None }
}

/// The open slots of the delegations of a broadcast.
pub fn open_slots(delegations: &Vec<Delegation>) -> (res: Vec<Slot>)
    ensures
        res@.len() == delegations@.len(),
        forall|i: int| 0 <= i < res@.len() ==> (#[trigger] res@[i])@ == open_slot(delegations@[i]),
{
    let mut out: Vec<Slot> = Vec::new();
    let mut i: usize = 0;
    while i < delegations.len()
        invariant
            0 <= i <= delegations.len(),
            out.len() == i,
            forall|k: int| 0 <= k < i ==> (#[trigger] out@[k])@ == open_slot(delegations@[k]),
        decreases delegations.len() - i,
    {
        let d = &delegations[i];
        out.push(
            Slot { peer_id: d.peer_id.clone(), subtask_id: d.task.id.clone(), result: None },
        );
        i = i + 1;
    }
    out
}

/// A slot after a step of collecting: one that has its result keeps it, an open
/// one gets what has come of its subtask.
pub open spec fn collected_slot(
    request: DelegationRequest,
    slot: SlotView,
    elapsed_ms: u64,
    limit_secs: u64,
    received: Seq<TaskView>,
) -> SlotView {
    if slot.result is Some {
        slot
    } else {
        SlotView {
            result: outcome_of(
                request,
                slot.peer_id,
                slot.subtask_id,
                elapsed_ms,
                limit_secs,
                received,
            ),
            ..slot
        }
    }
}

/// One step of collecting the responses to a broadcast. All subtasks share one
/// limit: `elapsed_ms` is the time since the broadcast began. `received` is what
/// was polled, nothing once the time was up before polling.
pub fn collect_step(
    request: &DelegationRequest,
    slots: &mut Vec<Slot>,
    elapsed_ms: u64,
    limit_secs: u64,
    received: &Vec<Task>,
)
    ensures
        final(slots)@.len() == old(slots)@.len(),
        forall|i: int|
            0 <= i < old(slots)@.len() ==> (#[trigger] final(slots)@[i])@ == collected_slot(
                *request,
                old(slots)@[i]@,
                elapsed_ms,
                limit_secs,
                tasks(received@),
            ),
{
    let mut i: usize = 0;
    while i < slots.len()
        invariant
            0 <= i <= slots@.len(),
            slots@.len() == old(slots)@.len(),
            forall|k: int|
                0 <= k < i ==> (#[trigger] slots@[k])@ == collected_slot(
                    *request,
                    old(slots)@[k]@,
                    elapsed_ms,
                    limit_secs,
                    tasks(received@),
                ),
            forall|k: int| i <= k < slots@.len() ==> #[trigger] slots@[k] == old(slots)@[k],
        decreases slots@.len() - i,
    {
        if slots[i].result.is_none() {
            let step = wait_step(
                request,
                slots[i].peer_id.as_str(),
                slots[i].subtask_id.as_str(),
                elapsed_ms,
                limit_secs,
                received,
            );
            if let WaitStep::Finished(result) = step {
                let filled = Slot {
                    peer_id: slots[i].peer_id.clone(),
                    subtask_id: slots[i].subtask_id.clone(),
                    result: Some(result),
                };
                slots.set(i, filled);
            }
        }
        i = i + 1;
    }
}

/// Ends a subtask of a broadcast that could not be carried out, unless it has its
/// result already.
pub fn fail_slot(request: &DelegationRequest, slots: &mut Vec<Slot>, at: usize, error: &NodeError)
    requires
        at < old(slots)@.len(),
    ensures
        final(slots)@.len() == old(slots)@.len(),
        forall|i: int|
            0 <= i < old(slots)@.len() && i != at ==> #[trigger] final(slots)@[i] == old(slots)@[i],
        final(slots)@[at as int]@ == if old(slots)@[at as int]@.result is Some {
            old(slots)@[at as int]@
        } else {
            SlotView {
                result: Some(
                    failed_result(
                        *request,
                        old(slots)@[at as int]@.peer_id,
                        ""@,
                        error.text(),
                    ),
                ),
                ..old(slots)@[at as int]@
            }
        },
{
    if slots[at].result.is_none() {
        let result = broadcast_failure(request, slots[at].peer_id.as_str(), error);
        let filled = Slot {
            peer_id: slots[at].peer_id.clone(),
            subtask_id: slots[at].subtask_id.clone(),
            result: Some(result),
        };
        slots.set(at, filled);
    }
}

/// The results of a broadcast, in the order of its peers, once no subtask is open.
pub fn collected(slots: &Vec<Slot>) -> (res: Option<Vec<DelegationResult>>)
    ensures
        res is Some <==> forall|i: int|
            0 <= i < slots@.len() ==> (#[trigger] slots@[i])@.result is Some,
        res is Some ==> res->0@.len() == slots@.len(),
        res is Some ==> forall|i: int|
            0 <= i < slots@.len() ==> Some((#[trigger] res->0@[i])@) == slots@[i]@.result,
{
    let mut out: Vec<DelegationResult> = Vec::new();
    let mut i: usize = 0;
    while i < slots.len()
        invariant
            0 <= i <= slots.len(),
            out.len() == i,
            forall|k: int| 0 <= k < i ==> (#[trigger] slots@[k])@.result is Some,
            forall|k: int| 0 <= k < i ==> Some((#[trigger] out@[k])@) == slots@[k]@.result,
        decreases slots.len() - i,
    {
        match &slots[i].result {
            Some(result) => out.push(result.clone()),
            None => {
                assert(slots@[i as int]@.result is None);
                return None;
            },
        }
        i = i + 1;
    }
    Some(out)
}

/// The capability that a strategy names, empty where it names none.
pub open spec fn named_capability(strategy: DelegationStrategy) -> Seq<char> {
    match strategy {
        DelegationStrategy::CapabilityMatch { capability } => capability@,
        _ => ""@,
    }
}

/// The capability that a strategy names, empty where it names none.
pub fn capability_of(strategy: &DelegationStrategy) -> (res: String)
    ensures
        res@ == named_capability(*strategy),
{
    match strategy {
        DelegationStrategy::CapabilityMatch { capability } => capability.clone(),
        _ => "".to_owned(),
    }
}

/// The content identifier in a response: the ASCII letters and digits behind the
/// last `codex://`, or nothing.
pub open spec fn codex_cid(body: Seq<char>) -> Seq<char> {
    if exists|at: int| last_at(body, CODEX_MARK@, at) {
        let at = choose|at: int| last_at(body, CODEX_MARK@, at);
        alphanumeric_start(body.skip(at + CODEX_MARK@.len()))
    } else {
        ""@
    }
}

/// Pulls the content identifier out of a response.
pub fn extract_codex_cid(body: &str) -> (res: String)
    ensures
        res@ == codex_cid(body@),
{
    let res = alphanumeric_after(body, CODEX_MARK);
    proof {
        if exists|at: int| last_at(body@, CODEX_MARK@, at) {
            let at = choose|at: int| last_at(body@, CODEX_MARK@, at);
            assert(res@ == alphanumeric_start(body@.skip(at + CODEX_MARK@.len())));
        } else {
            no_last_means_none(body@, CODEX_MARK@);
        }
    }
    res
}

proof fn last_exists(s: Seq<char>, pattern: Seq<char>, at: int)
    requires
        stands_at(s, pattern, at),
    ensures
        exists|i: int| last_at(s, pattern, i),
    decreases s.len() - at,
{
    if exists|i: int| at < i && stands_at(s, pattern, i) {
        let i = choose|i: int| at < i && stands_at(s, pattern, i);
        last_exists(s, pattern, i);
    } else {
        assert(last_at(s, pattern, at));
    }
}

proof fn no_last_means_none(s: Seq<char>, pattern: Seq<char>)
    requires
        !exists|i: int| last_at(s, pattern, i),
    ensures
        forall|i: int| !stands_at(s, pattern, i),
{
    assert forall|i: int| !stands_at(s, pattern, i) by {
        if stands_at(s, pattern, i) {
            last_exists(s, pattern, i);
        }
    }
}

/// The history row for a finished delegation.
pub open spec fn delegation_row_of(
    st: NodeState,
    result: ResultView,
    request: DelegationRequest,
    elapsed_ms: u64,
    now: u64,
    written: u64,
) -> RowView {
    let body = or_empty(result.result_text);
    RowView {
        task_id: result.subtask_id,
        parent_id: result.parent_task_id,
        created_at_ms: written,
        direction: "delegated"@,
        peer_pubkey: result.agent_id,
        peer_name: name_of(st.peers, result.agent_id, now),
        capability: named_capability(request.strategy),
        text: request.subtask_text@,
        body,
        cid: codex_cid(body),
        success: result.success,
        error: result.error,
        elapsed_ms,
        session_id: or_empty(opt_text(request.session_id)),
    }
}

} // verus!
