//! Discovery, presence and the registry of agents.

use vstd::prelude::*;
use crate::agent::{
    cards, task_topic, task_topic_of, A2AEnvelope, AgentCard, AnnouncementView, CardView,
    PresenceAnnouncement,
};
use crate::clock::now_secs;
use crate::error::NodeError;
use crate::load::LoadStatus;
use crate::metrics::{counted, Metrics};
use crate::node::{load_of, with_live_peers, LmaoNode, NodeState};
use crate::presence::{announced, capable_rows, peer_rows, PeerInfo, PeerView};
use crate::table::{distinct_keys, mapped, mapped_put, with_row, TextTable};
use crate::text::{clone_texts, same_text, texts};
use crate::trust::{sealing_key, trust_entries, TrustEntryView};

verus! {

/// How long a presence announcement holds unless said otherwise, in seconds.
pub const DEFAULT_PRESENCE_TTL: u64 = 300;

/// The announcement that an agent makes of its presence, before it is signed.
pub open spec fn own_announcement(card: CardView, ttl_secs: u64) -> AnnouncementView {
    AnnouncementView {
        agent_id: card.public_key,
        name: card.name,
        capabilities: card.capabilities,
        waku_topic: task_topic_of(card.public_key),
        ttl_secs,
        signature: None,
    }
}

/// The node after an announcement went out.
pub open spec fn after_announcement(st: NodeState) -> NodeState {
    NodeState {
        metrics: Metrics {
            announcements_sent: counted(st.metrics.announcements_sent, 1),
            messages_published: counted(st.metrics.messages_published, 1),
            ..st.metrics
        },
        ..st
    }
}

/// The card in an envelope, where it is of another agent.
pub open spec fn foreign_card(own: Seq<char>, envelope: Option<A2AEnvelope>) -> Option<CardView> {
    match envelope {
        Some(A2AEnvelope::AgentCard(card)) => if card@.public_key != own {
            Some(card@)
        } else {
            None
        },
        _ => None,
    }
}

/// The cards of other agents among received envelopes, in order.
pub open spec fn foreign_cards(own: Seq<char>, envelopes: Seq<Option<A2AEnvelope>>) -> Seq<CardView>
    decreases envelopes.len(),
{
    if envelopes.len() == 0 {
        seq![]
    } else {
        let before = foreign_cards(own, envelopes.drop_last());
        match foreign_card(own, envelopes.last()) {
            Some(card) => before.push(card),
            None => before,
        }
    }
}

/// Cards by their keys; a later card replaces an earlier one of the same key.
pub open spec fn cards_by_key(list: Seq<CardView>) -> Seq<(Seq<char>, CardView)>
    decreases list.len(),
{
    if list.len() == 0 {
        seq![]
    } else {
        with_row(cards_by_key(list.drop_last()), list.last().public_key, list.last())
    }
}

/// The cards of a registry that are of other agents, in order.
pub open spec fn not_own(own: Seq<char>, list: Seq<CardView>) -> Seq<CardView> {
    list.filter(|card: CardView| card.public_key != own)
}

/// What a table of cards holds, in order.
pub open spec fn values_of(rows: Seq<(Seq<char>, CardView)>) -> Seq<CardView> {
    Seq::new(rows.len(), |i: int| rows[i].1)
}

/// A report of this agent's load, to be sealed for one peer and to go out with the
/// presence announcement.
#[derive(Debug)]
pub struct LoadReport {
    /// The peer that the report is for.
    pub recipient: String,
    /// The key under which it is sealed.
    pub encryption_pubkey: String,
    pub load: LoadStatus,
}

/// What a [`LoadReport`] says.
#[verifier::ext_equal]
pub struct ReportView {
    pub recipient: Seq<char>,
    pub encryption_pubkey: Seq<char>,
    pub load: LoadStatus,
}

impl View for LoadReport {
    type V = ReportView;

    open spec fn view(&self) -> ReportView {
        ReportView {
            recipient: self.recipient@,
            encryption_pubkey: self.encryption_pubkey@,
            load: self.load,
        }
    }
}

/// What load reports say.
pub open spec fn report_views(list: Seq<LoadReport>) -> Seq<ReportView> {
    Seq::new(list.len(), |i: int| list[i]@)
}

/// A load as it is reported to the peers on a trust list that have a key for
/// sealed messages, in order.
pub open spec fn reports_to(entries: Seq<TrustEntryView>, load: LoadStatus) -> Seq<ReportView>
    decreases entries.len(),
{
    if entries.len() == 0 {
        seq![]
    } else {
        let before = reports_to(entries.drop_last(), load);
        match entries.last().encryption_pubkey {
            Some(key) => before.push(
                ReportView { recipient: entries.last().pubkey, encryption_pubkey: key, load },
            ),
            None => before,
        }
    }
}

/// The load reports that go out with a presence announcement: only a node with an
/// identity can seal them.
pub open spec fn own_reports(st: NodeState) -> Seq<ReportView> {
    if st.identity is Some {
        reports_to(st.trust.entries, load_of(st))
    } else {
        seq![]
    }
}

/// The place of the first report for a recipient, or the number of reports.
pub open spec fn report_place(recipients: Seq<Seq<char>>, own: Seq<char>) -> int
    decreases recipients.len(),
{
    if recipients.len() == 0 || recipients[0] == own {
        0
    } else {
        1 + report_place(recipients.drop_first(), own)
    }
}

/// What an optional place and key say.
pub open spec fn opt_report(found: Option<(usize, String)>) -> Option<(int, Seq<char>)> {
    match found {
        Some((at, key)) => Some((at as int, key@)),
        None => None,
    }
}

/// Which of the sealed reports of a sender a node can open, and the key that the
/// sender sealed it with: the first that is for the node itself, where the node has
/// an identity and the sender's key is on its trust list.
pub open spec fn openable(st: NodeState, sender: Seq<char>, recipients: Seq<Seq<char>>) -> Option<
    (int, Seq<char>),
> {
    let p = report_place(recipients, st.card.public_key);
    match sealing_key(st.trust.entries, sender) {
        Some(key) => if st.identity is Some && p < recipients.len() {
            Some((p, key))
        } else {
            None
        },
        None => None,
    }
}

/// A presence announcement that came in.
#[derive(Debug)]
pub struct ReceivedPresence {
    pub announcement: PresenceAnnouncement,
    /// Whether its signature was verified.
    pub verified: bool,
    /// The load that the sender sealed for this node, if it did.
    pub load: Option<LoadStatus>,
}

/// Whether an announcement is taken in: it is of another agent, and verified.
pub open spec fn acceptable(own: Seq<char>, p: ReceivedPresence) -> bool {
    p.announcement@.agent_id != own && p.verified
}

/// The entry that a received announcement makes.
pub open spec fn presence_entry(p: ReceivedPresence, now: u64) -> PeerView {
    PeerView { load: p.load, ..announced(p.announcement@, now) }
}

/// The node after an announcement came in at the given time.
pub open spec fn after_presence(st: NodeState, p: ReceivedPresence, now: u64) -> NodeState {
    if acceptable(st.card.public_key, p) {
        NodeState {
            peers: with_row(st.peers, p.announcement@.agent_id, presence_entry(p, now)),
            metrics: Metrics {
                peers_discovered: counted(st.metrics.peers_discovered, 1),
                ..st.metrics
            },
            ..st
        }
    } else {
        st
    }
}

/// The node after announcements came in at the given time.
pub open spec fn after_presences(st: NodeState, batch: Seq<ReceivedPresence>, now: u64) -> NodeState
    decreases batch.len(),
{
    if batch.len() == 0 {
        st
    } else {
        after_presence(after_presences(st, batch.drop_last(), now), batch.last(), now)
    }
}

/// How many of some announcements are taken in.
pub open spec fn accepted_count(own: Seq<char>, batch: Seq<ReceivedPresence>) -> nat
    decreases batch.len(),
{
    if batch.len() == 0 {
        0
    } else {
        accepted_count(own, batch.drop_last()) + if acceptable(own, batch.last()) {
            1nat
        } else {
            0nat
        }
    }
}

impl<T> LmaoNode<T> {
    /// The envelope that announces this agent's card.
    pub fn card_envelope(&self) -> (res: A2AEnvelope)
        ensures
            res is AgentCard,
            res->AgentCard_0@ == self@.card,
    {
        A2AEnvelope::AgentCard(self.card.clone())
    }

    /// The announcement of this agent's presence, to be signed and published. It
    /// holds for the given number of seconds.
    pub fn presence_announcement(&self, ttl_secs: u64) -> (res: PresenceAnnouncement)
        ensures
            res@ == own_announcement(self@.card, ttl_secs),
    {
        PresenceAnnouncement {
            agent_id: self.card.public_key.clone(),
            name: self.card.name.clone(),
            capabilities: clone_texts(&self.card.capabilities),
            waku_topic: task_topic(self.card.public_key.as_str()),
            ttl_secs,
            signature: None,
        }
    }

    /// The reports of this agent's load that go out with its presence announcement,
    /// each sealed for one peer on the trust list.
    pub fn load_reports(&self) -> (res: Vec<LoadReport>)
        requires
            self.wf(),
        ensures
            report_views(res@) == own_reports(self@),
    {
        let mut out: Vec<LoadReport> = Vec::new();
        assert(report_views(out@) =~= seq![]);
        if self.identity.is_none() {
            return out;
        }
        let load = self.current_load_status();
        let entries = self.trust_list.entries();
        let ghost all = self@.trust.entries;
        let mut i: usize = 0;
        assert(all.take(0) =~= seq![]);
        while i < entries.len()
            invariant
                0 <= i <= entries.len(),
                all == trust_entries(entries@),
                load == load_of(self@),
                report_views(out@) == reports_to(all.take(i as int), load),
            decreases entries.len() - i,
        {
            let ghost found = report_views(out@);
            assert(all.take(i + 1).drop_last() =~= all.take(i as int));
            assert(all.take(i + 1).last() == entries@[i as int]@);
            if let Some(key) = &entries[i].encryption_pubkey {
                out.push(
                    LoadReport {
                        recipient: entries[i].pubkey.clone(),
                        encryption_pubkey: key.clone(),
                        load,
                    },
                );
                assert(report_views(out@) =~= found.push(
                    ReportView {
                        recipient: all[i as int].pubkey,
                        encryption_pubkey: key@,
                        load,
                    },
                ));
            }
            i = i + 1;
        }
        assert(all.take(all.len() as int) =~= all);
        out
    }

    /// Decides which of the sealed load reports in a sender's announcement this node
    /// can open, given by the recipients of the reports, and under which key the
    /// sender sealed it.
    pub fn report_to_open(&self, sender: &str, recipients: &Vec<String>) -> (res: Option<
        (usize, String),
    >)
        ensures
            opt_report(res) == openable(self@, sender@, texts(recipients@)),
    {
        let key = match self.trust_list.encryption_key_of(sender) {
            Some(k) => k,
            None => return None,
        };
        let ghost all = texts(recipients@);
        let ghost own = self@.card.public_key;
        let mut i: usize = 0;
        assert(all.skip(0) =~= all);
        while i < recipients.len() && !same_text(
            recipients[i].as_str(),
            self.card.public_key.as_str(),
        )
            invariant
                0 <= i <= recipients.len(),
                all == texts(recipients@),
                own == self@.card.public_key,
                report_place(all, own) == i + report_place(all.skip(i as int), own),
            decreases recipients.len() - i,
        {
            assert(all.skip(i as int)[0] == all[i as int]);
            assert(all.skip(i as int).drop_first() =~= all.skip(i + 1));
            i = i + 1;
        }
        proof {
            if i < recipients.len() {
                assert(all.skip(i as int)[0] == all[i as int]);
            }
        }
        if self.identity.is_some() && i < recipients.len() {
            Some((i, key))
        } else {
            None
        }
    }

    /// Notes that an announcement, of the card or of the presence, went out.
    pub fn announcement_sent(&mut self)
        requires
            old(self).wf(),
        ensures
            final(self).wf(),
            final(self).carrier() == old(self).carrier(),
            final(self)@ == after_announcement(old(self)@),
    {
        Metrics::inc(&mut self.metrics.announcements_sent);
        Metrics::inc(&mut self.metrics.messages_published);
        assert(self@ =~= after_announcement(old(self)@));
    }

    /// Takes the cards of other agents out of what came in on the discovery
    /// topic, and counts them. Bytes that were no envelope are `None`.
    pub fn discover(&mut self, envelopes: Vec<Option<A2AEnvelope>>) -> (res: Vec<AgentCard>)
        requires
            old(self).wf(),
        ensures
            final(self).wf(),
            final(self).carrier() == old(self).carrier(),
            cards(res@) == foreign_cards(old(self)@.card.public_key, envelopes@),
            final(self)@ == (NodeState {
                metrics: Metrics {
                    discoveries: counted(old(self)@.metrics.discoveries, res@.len() as nat),
                    ..old(self)@.metrics
                },
                ..old(self)@
            }),
    {
        let ghost all = envelopes@;
        let ghost own = self@.card.public_key;
        let mut out: Vec<AgentCard> = Vec::new();
        assert(all.take(0) =~= seq![]);
        assert(cards(out@) =~= seq![]);
        for envelope in it: envelopes
            invariant
                it.seq() == all,
                own == self@.card.public_key,
                self@ == old(self)@,
                cards(out@) == foreign_cards(own, all.take(it.index() as int)),
        {
            let ghost found = cards(out@);
            proof {
                let i = it.index() as int;
                assert(all.take(i + 1).drop_last() =~= all.take(i));
                assert(all.take(i + 1).last() == all[i]);
            }
            if let Some(A2AEnvelope::AgentCard(card)) = envelope {
                if !same_text(card.public_key.as_str(), self.card.public_key.as_str()) {
                    out.push(card);
                    assert(cards(out@) =~= found.push(card@));
                }
            }
        }
        assert(all.take(all.len() as int) =~= all);
        Metrics::inc_by(&mut self.metrics.discoveries, out.len() as u64);
        out
    }

    /// Merges discovered cards with those of the registry, one per key. The
    /// registry's version wins; this agent's own card is left out of it. Without
    /// an answer of a registry there is `None`.
    pub fn merge_discovered(&self, found: Vec<AgentCard>, registry: Option<Vec<AgentCard>>) -> (res:
        Vec<AgentCard>)
        ensures
            cards(res@) == values_of(
                cards_by_key(
                    cards(found@) + match registry {
                        Some(list) => not_own(self@.card.public_key, cards(list@)),
                        None => Seq::empty(),
                    },
                ),
            ),
    {
        let ghost first = cards(found@);
        let ghost own = self@.card.public_key;
        let mut table: TextTable<AgentCard> = TextTable::new();
        let ghost f = |card: AgentCard| card@;
        assert(mapped(table@, f) =~= seq![]);
        assert(first.take(0) =~= seq![]);
        for card in it: found
            invariant
                it.seq().len() == first.len(),
                first == cards(it.seq()),
                f == (|card: AgentCard| card@),
                table.wf(),
                mapped(table@, f) == cards_by_key(first.take(it.index() as int)),
        {
            proof {
                let i = it.index() as int;
                assert(first.take(i + 1).drop_last() =~= first.take(i));
                assert(first.take(i + 1).last() == card@);
                mapped_put(table@, f, card@.public_key, card);
            }
            let key = card.public_key.clone();
            table.put(key.as_str(), card);
        }
        assert(first.take(first.len() as int) =~= first);
        assert(first + Seq::empty() =~= first);
        if let Some(list) = registry {
            let ghost second = cards(list@);
            let ghost foreign = |card: CardView| card.public_key != own;
            reveal(Seq::filter);
            assert(second.take(0) =~= seq![]);
            assert(first + second.take(0).filter(foreign) =~= first);
            for card in it: list
                invariant
                    it.seq().len() == second.len(),
                    second == cards(it.seq()),
                    f == (|card: AgentCard| card@),
                    foreign == (|card: CardView| card.public_key != own),
                    own == self@.card.public_key,
                    table.wf(),
                    mapped(table@, f) == cards_by_key(
                        first + second.take(it.index() as int).filter(foreign),
                    ),
            {
                let ghost before = second.take(it.index() as int).filter(foreign);
                proof {
                    let i = it.index() as int;
                    assert(second.take(i + 1).drop_last() =~= second.take(i));
                    assert(second.take(i + 1).last() == card@);
                    reveal(Seq::filter);
                    mapped_put(table@, f, card@.public_key, card);
                    assert((first + before.push(card@)).drop_last() =~= first + before);
                }
                if !same_text(card.public_key.as_str(), self.card.public_key.as_str()) {
                    let key = card.public_key.clone();
                    table.put(key.as_str(), card);
                }
            }
            assert(second.take(second.len() as int) =~= second);
        }
        let mut out: Vec<AgentCard> = Vec::new();
        let mut i: usize = 0;
        while i < table.len()
            invariant
                0 <= i <= table@.len(),
                out.len() == i,
                forall|k: int| 0 <= k < i ==> (#[trigger] out@[k])@ == table@[k].1@,
            decreases table@.len() - i,
        {
            out.push(table.value_at(i).clone());
            i = i + 1;
        }
        assert(cards(out@) =~= values_of(mapped(table@, f)));
        out
    }

    /// Takes in a presence announcement at the given time, and says whether it
    /// was taken in. An own announcement, and one that was not verified, is not.
    pub fn accept_presence_at(&mut self, p: &ReceivedPresence, now: u64) -> (res: bool)
        requires
            old(self).wf(),
        ensures
            final(self).wf(),
            final(self).carrier() == old(self).carrier(),
            res == acceptable(old(self)@.card.public_key, *p),
            final(self)@ == after_presence(old(self)@, *p, now),
    {
        if same_text(p.announcement.agent_id.as_str(), self.card.public_key.as_str())
            || !p.verified {
            return false;
        }
        proof {
            self.peer_map.keys_are_distinct();
            crate::table::put_then_look(
                self@.peers,
                p.announcement@.agent_id,
                announced(p.announcement@, now),
            );
        }
        self.peer_map.update_at(&p.announcement, now);
        let ghost between = self@.peers;
        if let Some(load) = p.load {
            self.peer_map.record_load(p.announcement.agent_id.as_str(), load);
            proof {
                replaced_twice(
                    old(self)@.peers,
                    p.announcement@.agent_id,
                    announced(p.announcement@, now),
                    presence_entry(*p, now),
                );
            }
        }
        Metrics::inc(&mut self.metrics.peers_discovered);
        assert(self@ =~= after_presence(old(self)@, *p, now));
        true
    }

    /// Takes in the presence announcements that came in, and returns how many
    /// were taken in.
    pub fn poll_presence(&mut self, batch: &Vec<ReceivedPresence>) -> (res: usize)
        requires
            old(self).wf(),
        ensures
            final(self).wf(),
            final(self).carrier() == old(self).carrier(),
            res == accepted_count(old(self)@.card.public_key, batch@),
            exists|now: u64| final(self)@ == #[trigger] after_presences(old(self)@, batch@, now),
    {
        let now: u64 = now_secs();
        let mut count: usize = 0;
        let mut i: usize = 0;
        assert(batch@.take(0) =~= seq![]);
        while i < batch.len()
            invariant
                0 <= i <= batch.len(),
                count <= i,
                self.wf(),
                self.carrier() == old(self).carrier(),
                self@.card == old(self)@.card,
                count == accepted_count(old(self)@.card.public_key, batch@.take(i as int)),
                self@ == after_presences(old(self)@, batch@.take(i as int), now),
            decreases batch.len() - i,
        {
            assert(batch@.take(i + 1).drop_last() =~= batch@.take(i as int));
            assert(batch@.take(i + 1).last() == batch@[i as int]);
            if self.accept_presence_at(&batch[i], now) {
                count = count + 1;
            }
            i = i + 1;
        }
        assert(batch@.take(batch@.len() as int) =~= batch@);
        assert(self@ == after_presences(old(self)@, batch@, now));
        count
    }

    /// All peers that are up to date now and offer a capability. Peers out of date
    /// are evicted.
    pub fn find_peers_by_capability(&mut self, capability: &str) -> (res: Vec<(String, PeerInfo)>)
        requires
            old(self).wf(),
        ensures
            final(self).wf(),
            final(self).carrier() == old(self).carrier(),
            exists|now: u64|
                peer_rows(res@) == #[trigger] capable_rows(old(self)@.peers, capability@, now)
                    && final(self)@ == with_live_peers(old(self)@, now),
    {
        let now: u64 = now_secs();
        let res = self.peer_map.find_by_capability_at(capability, now);
        assert(peer_rows(res@) == capable_rows(old(self)@.peers, capability@, now));
        assert(self@ =~= with_live_peers(old(self)@, now));
        res
    }

    /// The card to enter in the registry, where there is one.
    pub fn registry_card(&self) -> (res: Result<AgentCard, NodeError>)
        ensures
            res is Ok <==> self@.has_registry,
            res is Ok ==> res->Ok_0@ == self@.card,
            res is Err ==> res->Err_0.is_other("no registry configured"@),
    {
        if self.has_registry {
            Ok(self.card.clone())
        } else {
            Err(NodeError::Other("no registry configured".to_owned()))
        }
    }
}

/// What a registry's answer comes to: its error is passed on as it is.
pub fn registry_outcome(answer: Result<(), String>) -> (res: Result<(), NodeError>)
    ensures
        res is Ok <==> answer is Ok,
        res is Err ==> res->Err_0.is_other(answer->Err_0@),
{
    match answer {
        Ok(()) => Ok(()),
        Err(e) => Err(NodeError::Other(e)),
    }
}

/// Putting a value under a key and then another is putting the other.
proof fn replaced_twice<V>(rows: Seq<(Seq<char>, V)>, key: Seq<char>, first: V, second: V)
    requires
        distinct_keys(rows),
    ensures
        with_row(with_row(rows, key, first), key, second) == with_row(rows, key, second),
{
    let once = with_row(rows, key, first);
    crate::table::put_then_look(rows, key, first);
    if crate::table::has_key(rows, key) {
        let p = crate::table::place_of(rows, key);
        assert(once[p].0 == key);
        crate::table::place_is_unique(once, p);
        assert(once.update(p, (key, second)) =~= rows.update(p, (key, second)));
    } else {
        let p = rows.len() as int;
        assert(once[p].0 == key);
        crate::table::place_is_unique(once, p);
        assert(once.update(p, (key, second)) =~= rows.push((key, second)));
    }
}

} // verus!
