//! Presence: who is there, what they can do, and for how long this is known.

use vstd::prelude::*;
use crate::agent::{AnnouncementView, PresenceAnnouncement};
use crate::clock::now_secs;
use crate::load::LoadStatus;
use crate::table::{
    distinct_keys, lookup, mapped, mapped_keys, mapped_put, put_then_look, with_row, TextTable,
};
use crate::text::{clone_texts, contains_text, texts};

verus! {

/// Information about a live peer, derived from its presence announcement.
#[derive(Debug, PartialEq)]
pub struct PeerInfo {
    /// Human-readable name.
    pub name: String,
    /// Capabilities advertised by this peer.
    pub capabilities: Vec<String>,
    /// Content topic where the peer receives tasks.
    pub waku_topic: String,
    /// How long, in seconds, an announcement of the peer holds.
    pub ttl_secs: u64,
    /// Unix time in seconds when the peer's last announcement was seen.
    pub last_seen: u64,
    /// The load that the peer last reported to this node, if it did.
    pub load: Option<LoadStatus>,
}

/// What a [`PeerInfo`] says.
#[verifier::ext_equal]
pub struct PeerView {
    pub name: Seq<char>,
    pub capabilities: Seq<Seq<char>>,
    pub waku_topic: Seq<char>,
    pub ttl_secs: u64,
    pub last_seen: u64,
    pub load: Option<LoadStatus>,
}

impl View for PeerInfo {
    type V = PeerView;

    open spec fn view(&self) -> PeerView {
        PeerView {
            name: self.name@,
            capabilities: texts(self.capabilities@),
            waku_topic: self.waku_topic@,
            ttl_secs: self.ttl_secs,
            last_seen: self.last_seen,
            load: self.load,
        }
    }
}

impl Clone for PeerInfo {
    fn clone(&self) -> (res: PeerInfo)
        ensures
            res@ == self@,
    {
        PeerInfo {
            name: self.name.clone(),
            capabilities: clone_texts(&self.capabilities),
            waku_topic: self.waku_topic.clone(),
            ttl_secs: self.ttl_secs,
            last_seen: self.last_seen,
            load: self.load,
        }
    }
}

/// Whether an entry is out of date at the given time: it promised nothing, or
/// more time has passed since it was seen than it promised. A time before it was
/// seen counts as no time passed.
pub open spec fn expired_at(info: PeerView, now: u64) -> bool {
    info.ttl_secs == 0 || (now > info.last_seen && now - info.last_seen > info.ttl_secs)
}

impl PeerInfo {
    /// Whether this entry is out of date now.
    pub fn is_expired(&self) -> (res: bool)
        ensures
            exists|now: u64| res == #[trigger] expired_at(self@, now),
    {
        let now: u64 = now_secs();
        let res = self.is_expired_at(now);
        assert(res == expired_at(self@, now));
        res
    }

    /// Whether this entry is out of date at the given time.
    pub fn is_expired_at(&self, now_secs: u64) -> (res: bool)
        ensures
            res == expired_at(self@, now_secs),
    {
        self.ttl_secs == 0 || now_secs.saturating_sub(self.last_seen) > self.ttl_secs
    }
}

/// Rows of peers, by public key.
pub type PeerRows = Seq<(Seq<char>, PeerView)>;

/// The entry that an announcement makes when it is seen at the given time.
pub open spec fn announced(ann: AnnouncementView, now: u64) -> PeerView {
    PeerView {
        name: ann.name,
        capabilities: ann.capabilities,
        waku_topic: ann.waku_topic,
        ttl_secs: ann.ttl_secs,
        last_seen: now,
        load: None,
    }
}

/// The rows that are up to date at the given time, in order.
pub open spec fn live_rows(rows: PeerRows, now: u64) -> PeerRows {
    rows.filter(|row: (Seq<char>, PeerView)| !expired_at(row.1, now))
}

/// The rows that are up to date and offer a capability, in order.
pub open spec fn capable_rows(rows: PeerRows, capability: Seq<char>, now: u64) -> PeerRows {
    rows.filter(
        |row: (Seq<char>, PeerView)|
            !expired_at(row.1, now) && row.1.capabilities.contains(capability),
    )
}

/// The entry of an agent where it is known and up to date.
pub open spec fn live_entry(rows: PeerRows, agent_id: Seq<char>, now: u64) -> Option<PeerView> {
    match lookup(rows, agent_id) {
        Some(info) => if expired_at(info, now) {
            None
        } else {
            Some(info)
        },
        None => None,
    }
}

/// What an optional entry says.
pub open spec fn opt_peer(info: Option<PeerInfo>) -> Option<PeerView> {
    match info {
        Some(i) => Some(i@),
        None => None,
    }
}

/// What a list of peers with their keys says.
pub open spec fn peer_rows(list: Seq<(String, PeerInfo)>) -> PeerRows {
    Seq::new(list.len(), |i: int| (list[i].0@, list[i].1@))
}

/// Live peers by their public key. Entries past their time are passed over by
/// every query, which also evicts them.
#[derive(Debug)]
pub struct PeerMap {
    peers: TextTable<PeerInfo>,
}

impl View for PeerMap {
    type V = PeerRows;

    closed spec fn view(&self) -> PeerRows {
        mapped(self.peers@, |info: PeerInfo| info@)
    }
}

impl Default for PeerMap {
    fn default() -> (res: PeerMap)
        ensures
            res.wf(),
            res@ == Seq::<(Seq<char>, PeerView)>::empty(),
    {
        PeerMap::new()
    }
}

impl PeerMap {
    /// No agent has two entries.
    pub closed spec fn wf(&self) -> bool {
        self.peers.wf()
    }

    /// An empty map.
    pub fn new() -> (res: PeerMap)
        ensures
            res.wf(),
            res@ == Seq::<(Seq<char>, PeerView)>::empty(),
    {
        let res = PeerMap { peers: TextTable::new() };
        assert(res@ =~= Seq::<(Seq<char>, PeerView)>::empty());
        res
    }

    /// No agent has two entries, as the view shows it.
    pub proof fn keys_are_distinct(&self)
        requires
            self.wf(),
        ensures
            distinct_keys(self@),
    {
        mapped_keys(self.peers@, |info: PeerInfo| info@, ""@);
    }

    /// Takes in an announcement that is seen now.
    pub fn update(&mut self, announcement: &PresenceAnnouncement)
        requires
            old(self).wf(),
        ensures
            final(self).wf(),
            exists|now: u64|
                final(self)@ == with_row(
                    old(self)@,
                    announcement@.agent_id,
                    #[trigger] announced(announcement@, now),
                ),
    {
        let now: u64 = now_secs();
        self.update_at(announcement, now);
        assert(self@ == with_row(
            old(self)@,
            announcement@.agent_id,
            announced(announcement@, now),
        ));
    }

    /// Takes in an announcement that is seen at the given time. An earlier entry
    /// of the agent is replaced.
    pub fn update_at(&mut self, announcement: &PresenceAnnouncement, now: u64)
        requires
            old(self).wf(),
        ensures
            final(self).wf(),
            final(self)@ == with_row(
                old(self)@,
                announcement@.agent_id,
                announced(announcement@, now),
            ),
    {
        let info = PeerInfo {
            name: announcement.name.clone(),
            capabilities: clone_texts(&announcement.capabilities),
            waku_topic: announcement.waku_topic.clone(),
            ttl_secs: announcement.ttl_secs,
            last_seen: now,
            load: None,
        };
        proof {
            mapped_put(self.peers@, |info: PeerInfo| info@, announcement@.agent_id, info);
        }
        self.peers.put(announcement.agent_id.as_str(), info);
    }

    /// Notes the load that a known peer reports. Of an unknown peer nothing is
    /// noted.
    pub fn record_load(&mut self, agent_id: &str, load: LoadStatus)
        requires
            old(self).wf(),
        ensures
            final(self).wf(),
            final(self)@ == match lookup(old(self)@, agent_id@) {
                Some(info) => with_row(
                    old(self)@,
                    agent_id@,
                    PeerView { load: Some(load), ..info },
                ),
                None => old(self)@,
            },
    {
        proof {
            mapped_keys(self.peers@, |info: PeerInfo| info@, agent_id@);
        }
        if let Some(i) = self.peers.find(agent_id) {
            let mut info = self.peers.value_at(i).clone();
            info.load = Some(load);
            proof {
                mapped_put(self.peers@, |info: PeerInfo| info@, agent_id@, info);
            }
            self.peers.set_at(i, info);
        }
    }

    /// The entry of an agent, unless it is unknown or out of date now. Entries out
    /// of date are evicted.
    pub fn get(&mut self, agent_id: &str) -> (res: Option<PeerInfo>)
        requires
            old(self).wf(),
        ensures
            final(self).wf(),
            exists|now: u64|
                opt_peer(res) == #[trigger] live_entry(old(self)@, agent_id@, now) && final(self)@
                    == live_rows(old(self)@, now),
    {
        let now: u64 = now_secs();
        let res = self.get_at(agent_id, now);
        assert(opt_peer(res) == live_entry(old(self)@, agent_id@, now));
        res
    }

    /// The entry of an agent, unless it is unknown or out of date at the given
    /// time. Entries out of date are evicted.
    pub fn get_at(&mut self, agent_id: &str, now: u64) -> (res: Option<PeerInfo>)
        requires
            old(self).wf(),
        ensures
            final(self).wf(),
            opt_peer(res) == live_entry(old(self)@, agent_id@, now),
            final(self)@ == live_rows(old(self)@, now),
    {
        let res = self.entry_at(agent_id, now);
        self.evict_expired_at(now);
        res
    }

    fn entry_at(&self, agent_id: &str, now: u64) -> (res: Option<PeerInfo>)
        requires
            self.wf(),
        ensures
            opt_peer(res) == live_entry(self@, agent_id@, now),
    {
        proof {
            mapped_keys(self.peers@, |info: PeerInfo| info@, agent_id@);
        }
        match self.peers.get(agent_id) {
            Some(info) => {
                if info.is_expired_at(now) {
                    None
                } else {
                    Some(info.clone())
                }
            },
            None => None,
        }
    }

    /// All peers that are up to date now and offer a capability. Entries out of
    /// date are evicted.
    pub fn find_by_capability(&mut self, capability: &str) -> (res: Vec<(String, PeerInfo)>)
        requires
            old(self).wf(),
        ensures
            final(self).wf(),
            exists|now: u64|
                peer_rows(res@) == #[trigger] capable_rows(old(self)@, capability@, now)
                    && final(self)@ == live_rows(old(self)@, now),
    {
        let now: u64 = now_secs();
        let res = self.find_by_capability_at(capability, now);
        assert(peer_rows(res@) == capable_rows(old(self)@, capability@, now));
        res
    }

    /// All peers that are up to date at the given time and offer a capability.
    /// Entries out of date are evicted.
    pub fn find_by_capability_at(&mut self, capability: &str, now: u64) -> (res: Vec<
        (String, PeerInfo),
    >)
        requires
            old(self).wf(),
        ensures
            final(self).wf(),
            peer_rows(res@) == capable_rows(old(self)@, capability@, now),
            final(self)@ == live_rows(old(self)@, now),
    {
        let res = self.capable_at(capability, now);
        self.evict_expired_at(now);
        res
    }

    fn capable_at(&self, capability: &str, now: u64) -> (res: Vec<(String, PeerInfo)>)
        ensures
            peer_rows(res@) == capable_rows(self@, capability@, now),
    {
        let ghost wanted = |row: (Seq<char>, PeerView)|
            !expired_at(row.1, now) && row.1.capabilities.contains(capability@);
        let mut out: Vec<(String, PeerInfo)> = Vec::new();
        let mut i: usize = 0;
        reveal(Seq::filter);
        assert(self@.take(0) =~= seq![]);
        assert(peer_rows(out@) =~= seq![]);
        while i < self.peers.len()
            invariant
                0 <= i <= self@.len(),
                self@.len() == self.peers@.len(),
                wanted == (|row: (Seq<char>, PeerView)|
                    !expired_at(row.1, now) && row.1.capabilities.contains(capability@)),
                peer_rows(out@) == self@.take(i as int).filter(wanted),
            decreases self@.len() - i,
        {
            let ghost found = peer_rows(out@);
            let info = self.peers.value_at(i);
            assert(self@.take(i + 1).drop_last() =~= self@.take(i as int));
            assert(self@.take(i + 1).last() == (self.peers@[i as int].0, info@));
            reveal(Seq::filter);
            if !info.is_expired_at(now) && contains_text(&info.capabilities, capability) {
                out.push((self.peers.key_at(i).clone(), info.clone()));
                assert(peer_rows(out@) =~= found.push((self.peers@[i as int].0, info@)));
            }
            i = i + 1;
        }
        assert(self@.take(self@.len() as int) =~= self@);
        out
    }

    /// All peers that are up to date now. Entries out of date are evicted.
    pub fn all_live(&mut self) -> (res: Vec<(String, PeerInfo)>)
        requires
            old(self).wf(),
        ensures
            final(self).wf(),
            exists|now: u64| peer_rows(res@) == #[trigger] live_rows(old(self)@, now),
            final(self)@ == peer_rows(res@),
    {
        let now: u64 = now_secs();
        let res = self.all_live_at(now);
        assert(peer_rows(res@) == live_rows(old(self)@, now));
        res
    }

    /// All peers that are up to date at the given time. Entries out of date are
    /// evicted.
    pub fn all_live_at(&mut self, now: u64) -> (res: Vec<(String, PeerInfo)>)
        requires
            old(self).wf(),
        ensures
            final(self).wf(),
            peer_rows(res@) == live_rows(old(self)@, now),
            final(self)@ == live_rows(old(self)@, now),
    {
        let res = self.live_at(now);
        self.evict_expired_at(now);
        res
    }

    fn live_at(&self, now: u64) -> (res: Vec<(String, PeerInfo)>)
        ensures
            peer_rows(res@) == live_rows(self@, now),
    {
        let ghost wanted = |row: (Seq<char>, PeerView)| !expired_at(row.1, now);
        let mut out: Vec<(String, PeerInfo)> = Vec::new();
        let mut i: usize = 0;
        reveal(Seq::filter);
        assert(self@.take(0) =~= seq![]);
        assert(peer_rows(out@) =~= seq![]);
        while i < self.peers.len()
            invariant
                0 <= i <= self@.len(),
                self@.len() == self.peers@.len(),
                wanted == (|row: (Seq<char>, PeerView)| !expired_at(row.1, now)),
                peer_rows(out@) == self@.take(i as int).filter(wanted),
            decreases self@.len() - i,
        {
            let ghost found = peer_rows(out@);
            let info = self.peers.value_at(i);
            assert(self@.take(i + 1).drop_last() =~= self@.take(i as int));
            assert(self@.take(i + 1).last() == (self.peers@[i as int].0, info@));
            reveal(Seq::filter);
            if !info.is_expired_at(now) {
                out.push((self.peers.key_at(i).clone(), info.clone()));
                assert(peer_rows(out@) =~= found.push((self.peers@[i as int].0, info@)));
            }
            i = i + 1;
        }
        assert(self@.take(self@.len() as int) =~= self@);
        out
    }

    /// Number of entries, including those out of date.
    pub fn len(&self) -> (res: usize)
        ensures
            res == self@.len(),
    {
        self.peers.len()
    }

    /// Whether there are no entries.
    pub fn is_empty(&self) -> (res: bool)
        ensures
            res == (self@.len() == 0),
    {
        self.peers.len() == 0
    }

    /// Removes the entries that are out of date now, and returns how many there
    /// were.
    pub fn evict_expired(&mut self) -> (res: usize)
        requires
            old(self).wf(),
        ensures
            final(self).wf(),
            exists|now: u64| final(self)@ == #[trigger] live_rows(old(self)@, now),
            res == old(self)@.len() - final(self)@.len(),
    {
        let now: u64 = now_secs();
        let res: usize = self.evict_expired_at(now);
        assert(self@ == live_rows(old(self)@, now));
        res
    }

    /// Removes the entries that are out of date at the given time, and returns
    /// how many there were.
    pub fn evict_expired_at(&mut self, now: u64) -> (res: usize)
        requires
            old(self).wf(),
        ensures
            final(self).wf(),
            final(self)@ == live_rows(old(self)@, now),
            res == old(self)@.len() - final(self)@.len(),
    {
        let ghost wanted = |row: (Seq<char>, PeerView)| !expired_at(row.1, now);
        let ghost all = self@;
        let before: usize = self.peers.len();
        let mut i: usize = 0;
        reveal(Seq::filter);
        assert(all.take(0) =~= seq![]);
        assert(all.skip(0) =~= all);
        assert(all.take(0).filter(wanted) + all.skip(0) =~= all);
        let ghost mut seen: int = 0;
        while i < self.peers.len()
            invariant
                self.peers.wf(),
                0 <= seen <= all.len(),
                0 <= i <= self@.len() <= all.len(),
                self@.len() == self.peers@.len(),
                wanted == (|row: (Seq<char>, PeerView)| !expired_at(row.1, now)),
                i == all.take(seen).filter(wanted).len(),
                self@ == all.take(seen).filter(wanted) + all.skip(seen),
            decreases all.len() - seen,
        {
            let ghost kept = all.take(seen).filter(wanted);
            let ghost current = self@;
            assert(seen < all.len());
            assert(current[i as int] == all[seen]);
            assert(all.take(seen + 1).drop_last() =~= all.take(seen));
            assert(all.take(seen + 1).last() == all[seen]);
            reveal(Seq::filter);
            if self.peers.value_at(i).is_expired_at(now) {
                let ghost rows = self.peers@;
                self.peers.remove_at(i);
                assert(self@ =~= current.remove(i as int));
                assert(current.remove(i as int) =~= kept + all.skip(seen + 1));
            } else {
                assert(kept.push(all[seen]) + all.skip(seen + 1) =~= current);
                i = i + 1;
            }
            proof {
                seen = seen + 1;
            }
        }
        proof {
            if seen < all.len() {
                assert(all.skip(seen).len() > 0);
            }
            assert(all.take(seen) =~= all);
            assert(all.skip(seen) =~= seq![]);
            assert(self@ =~= live_rows(all, now));
        }
        before - self.peers.len()
    }
}

/// An entry is up to date for exactly as long as it promised: at the promised
/// moment it still is, a second later it is not.
pub proof fn expiry_is_at_the_ttl(info: PeerView)
    requires
        info.ttl_secs > 0,
        info.last_seen + info.ttl_secs < u64::MAX,
    ensures
        !expired_at(info, (info.last_seen + info.ttl_secs) as u64),
        expired_at(info, (info.last_seen + info.ttl_secs + 1) as u64),
{
}

/// Once out of date, an entry stays so until it is announced again.
pub proof fn expiry_is_final(info: PeerView, now: u64, later: u64)
    requires
        expired_at(info, now),
        now <= later,
    ensures
        expired_at(info, later),
{
}

/// An announced peer is found at once if it promised any time at all, with what
/// it announced; peers that did not announce are as they were.
pub proof fn announced_is_found(rows: PeerRows, ann: AnnouncementView, now: u64)
    requires
        distinct_keys(rows),
        ann.ttl_secs > 0,
    ensures
        live_entry(with_row(rows, ann.agent_id, announced(ann, now)), ann.agent_id, now) == Some(
            announced(ann, now),
        ),
        forall|other: Seq<char>|
            other != ann.agent_id ==> #[trigger] live_entry(
                with_row(rows, ann.agent_id, announced(ann, now)),
                other,
                now,
            ) == live_entry(rows, other, now),
{
    put_then_look(rows, ann.agent_id, announced(ann, now));
}

/// Evicting changes no answer: what is live afterwards is what was live before.
pub proof fn eviction_hides_nothing(rows: PeerRows, now: u64)
    ensures
        live_rows(live_rows(rows, now), now) == live_rows(rows, now),
    decreases rows.len(),
{
    reveal(Seq::filter);
    let wanted = |row: (Seq<char>, PeerView)| !expired_at(row.1, now);
    if rows.len() > 0 {
        eviction_hides_nothing(rows.drop_last(), now);
        let kept = rows.drop_last().filter(wanted);
        if wanted(rows.last()) {
            assert(kept.push(rows.last()).drop_last() =~= kept);
        }
    }
}

/// An entry promises its time from the moment it was seen: it is out of date
/// exactly after that time, and one that promises no time is never up to date.
pub proof fn an_entry_holds_for_its_time(info: PeerView, now: u64)
    ensures
        info.ttl_secs > 0 && now <= info.last_seen + info.ttl_secs ==> !expired_at(info, now),
        info.ttl_secs > 0 && now > info.last_seen + info.ttl_secs ==> expired_at(info, now),
        info.ttl_secs == 0 ==> expired_at(info, now),
{
}

/// An entry says what was announced, and when; of the load it says nothing yet.
pub proof fn an_entry_says_what_was_announced(ann: AnnouncementView, now: u64)
    ensures
        announced(ann, now).name == ann.name,
        announced(ann, now).capabilities == ann.capabilities,
        announced(ann, now).waku_topic == ann.waku_topic,
        announced(ann, now).ttl_secs == ann.ttl_secs,
        announced(ann, now).last_seen == now,
        announced(ann, now).load is None,
{
}

proof fn live_rows_join(before: PeerRows, after: PeerRows, now: u64)
    ensures
        live_rows(before + after, now) == live_rows(before, now) + live_rows(after, now),
    decreases after.len(),
{
    reveal(Seq::filter);
    if after.len() == 0 {
        assert(before + after =~= before);
        assert(live_rows(before, now) + live_rows(after, now) =~= live_rows(before, now));
    } else {
        live_rows_join(before, after.drop_last(), now);
        assert((before + after).drop_last() =~= before + after.drop_last());
        assert((before + after).last() == after.last());
        assert(live_rows(before + after, now) =~= live_rows(before, now) + live_rows(after, now));
    }
}

proof fn capable_rows_join(before: PeerRows, after: PeerRows, capability: Seq<char>, now: u64)
    ensures
        capable_rows(before + after, capability, now) == capable_rows(before, capability, now)
            + capable_rows(after, capability, now),
    decreases after.len(),
{
    reveal(Seq::filter);
    if after.len() == 0 {
        assert(before + after =~= before);
        assert(capable_rows(before, capability, now) + capable_rows(after, capability, now)
            =~= capable_rows(before, capability, now));
    } else {
        capable_rows_join(before, after.drop_last(), capability, now);
        assert((before + after).drop_last() =~= before + after.drop_last());
        assert((before + after).last() == after.last());
        assert(capable_rows(before + after, capability, now) =~= capable_rows(
            before,
            capability,
            now,
        ) + capable_rows(after, capability, now));
    }
}

/// A query for live peers gives every peer whose time is not over, in its place
/// among the others, and no other.
pub proof fn every_live_peer_is_found(
    before: PeerRows,
    row: (Seq<char>, PeerView),
    after: PeerRows,
    now: u64,
)
    ensures
        row.1.ttl_secs > 0 && now <= row.1.last_seen + row.1.ttl_secs ==> live_rows(
            before + seq![row] + after,
            now,
        ) == live_rows(before, now) + seq![row] + live_rows(after, now),
        row.1.ttl_secs == 0 || now > row.1.last_seen + row.1.ttl_secs ==> live_rows(
            before + seq![row] + after,
            now,
        ) == live_rows(before, now) + live_rows(after, now),
        live_rows(Seq::empty(), now) == Seq::<(Seq<char>, PeerView)>::empty(),
{
    let one = seq![row];
    live_rows_join(before, one, now);
    live_rows_join(before + one, after, now);
    reveal(Seq::filter);
    assert(one.drop_last() =~= Seq::<(Seq<char>, PeerView)>::empty());
    assert(live_rows(one.drop_last(), now) =~= Seq::<(Seq<char>, PeerView)>::empty());
    assert(one.last() == row);
    if expired_at(row.1, now) {
        assert(live_rows(one, now) =~= Seq::<(Seq<char>, PeerView)>::empty());
        assert(live_rows(before, now) + live_rows(one, now) =~= live_rows(before, now));
    } else {
        assert(live_rows(one, now) =~= one);
    }
}

/// A query by capability gives every live peer that offers it, in its place among
/// the others, and no other.
pub proof fn every_capable_peer_is_found(
    before: PeerRows,
    row: (Seq<char>, PeerView),
    after: PeerRows,
    capability: Seq<char>,
    now: u64,
)
    ensures
        row.1.ttl_secs > 0 && now <= row.1.last_seen + row.1.ttl_secs && (exists|i: int|
            0 <= i < row.1.capabilities.len() && #[trigger] row.1.capabilities[i] == capability)
            ==> capable_rows(before + seq![row] + after, capability, now) == capable_rows(
            before,
            capability,
            now,
        ) + seq![row] + capable_rows(after, capability, now),
        row.1.ttl_secs == 0 || now > row.1.last_seen + row.1.ttl_secs || (forall|i: int|
            0 <= i < row.1.capabilities.len() ==> #[trigger] row.1.capabilities[i] != capability)
            ==> capable_rows(before + seq![row] + after, capability, now) == capable_rows(
            before,
            capability,
            now,
        ) + capable_rows(after, capability, now),
        capable_rows(Seq::empty(), capability, now) == Seq::<(Seq<char>, PeerView)>::empty(),
{
    let one = seq![row];
    capable_rows_join(before, one, capability, now);
    capable_rows_join(before + one, after, capability, now);
    reveal(Seq::filter);
    assert(one.drop_last() =~= Seq::<(Seq<char>, PeerView)>::empty());
    assert(capable_rows(one.drop_last(), capability, now) =~= Seq::<
        (Seq<char>, PeerView),
    >::empty());
    assert(one.last() == row);
    if !expired_at(row.1, now) && row.1.capabilities.contains(capability) {
        assert(capable_rows(one, capability, now) =~= one);
    } else {
        assert(capable_rows(one, capability, now) =~= Seq::<(Seq<char>, PeerView)>::empty());
        assert(capable_rows(before, capability, now) + capable_rows(one, capability, now)
            =~= capable_rows(before, capability, now));
    }
}

/// Looking up an agent gives its entry exactly where the agent is known and its time
/// is not over.
pub proof fn a_live_entry_is_the_agents_own(rows: PeerRows, i: int, now: u64)
    requires
        distinct_keys(rows),
        0 <= i < rows.len(),
    ensures
        rows[i].1.ttl_secs > 0 && now <= rows[i].1.last_seen + rows[i].1.ttl_secs ==> live_entry(
            rows,
            rows[i].0,
            now,
        ) == Some(rows[i].1),
        rows[i].1.ttl_secs == 0 || now > rows[i].1.last_seen + rows[i].1.ttl_secs ==> live_entry(
            rows,
            rows[i].0,
            now,
        ) is None,
        forall|id: Seq<char>|
            (forall|k: int| 0 <= k < rows.len() ==> (#[trigger] rows[k]).0 != id)
                ==> #[trigger] live_entry(rows, id, now) is None,
{
    crate::table::place_is_unique(rows, i);
}

} // verus!
