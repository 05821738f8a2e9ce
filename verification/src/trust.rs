//! The friend keyring: whom this agent trusts, and for what.

use vstd::prelude::*;
use crate::text::{clone_opt_text, clone_texts, contains_text, opt_text, same_text, texts};

verus! {

/// What the trust list is used for.
#[derive(Debug, Clone, Copy, PartialEq, Eq, Structural)]
pub enum TrustMode {
    /// For nothing: everybody counts as trusted.
    Off,
    /// Strangers are reported and let through.
    Log,
    /// Strangers are turned away.
    Enforce,
}

/// The name of a mode.
pub open spec fn mode_name(mode: TrustMode) -> Seq<char> {
    match mode {
        TrustMode::Off => "Off"@,
        TrustMode::Log => "Log"@,
        TrustMode::Enforce => "Enforce"@,
    }
}

impl TrustMode {
    /// The name of the mode.
    pub fn name(&self) -> (res: &'static str)
        ensures
            res@ == mode_name(*self),
    {
        match self {
            TrustMode::Off => "Off",
            TrustMode::Log => "Log",
            TrustMode::Enforce => "Enforce",
        }
    }
}

/// A trusted peer.
#[derive(Debug)]
pub struct TrustEntry {
    pub pubkey: String,
    pub nickname: String,
    /// What the peer is trusted for; empty means everything.
    pub capabilities: Vec<String>,
    pub notes: Option<String>,
    /// Unix time in seconds when the entry was made.
    pub added_at: u64,
    /// The key under which the peer reads sealed messages.
    pub encryption_pubkey: Option<String>,
}

/// What a [`TrustEntry`] says.
#[verifier::ext_equal]
pub struct TrustEntryView {
    pub pubkey: Seq<char>,
    pub nickname: Seq<char>,
    pub capabilities: Seq<Seq<char>>,
    pub notes: Option<Seq<char>>,
    pub added_at: u64,
    pub encryption_pubkey: Option<Seq<char>>,
}

impl View for TrustEntry {
    type V = TrustEntryView;

    open spec fn view(&self) -> TrustEntryView {
        TrustEntryView {
            pubkey: self.pubkey@,
            nickname: self.nickname@,
            capabilities: texts(self.capabilities@),
            notes: opt_text(self.notes),
            added_at: self.added_at,
            encryption_pubkey: opt_text(self.encryption_pubkey),
        }
    }
}

impl Clone for TrustEntry {
    fn clone(&self) -> (res: TrustEntry)
        ensures
            res@ == self@,
    {
        TrustEntry {
            pubkey: self.pubkey.clone(),
            nickname: self.nickname.clone(),
            capabilities: clone_texts(&self.capabilities),
            notes: clone_opt_text(&self.notes),
            added_at: self.added_at,
            encryption_pubkey: clone_opt_text(&self.encryption_pubkey),
        }
    }
}

/// What entries say.
pub open spec fn trust_entries(list: Seq<TrustEntry>) -> Seq<TrustEntryView> {
    Seq::new(list.len(), |i: int| list[i]@)
}

/// What a trust list is: its mode and its entries.
#[verifier::ext_equal]
pub struct TrustView {
    pub mode: TrustMode,
    pub entries: Seq<TrustEntryView>,
}

/// Whether a key is on the list.
pub open spec fn listed(entries: Seq<TrustEntryView>, pubkey: Seq<char>) -> bool {
    exists|i: int| 0 <= i < entries.len() && (#[trigger] entries[i]).pubkey == pubkey
}

/// Whether a key is on the list with the capability: an entry without
/// capabilities stands for all of them.
pub open spec fn listed_for(
    entries: Seq<TrustEntryView>,
    pubkey: Seq<char>,
    capability: Seq<char>,
) -> bool {
    exists|i: int|
        0 <= i < entries.len() && (#[trigger] entries[i]).pubkey == pubkey && (
        entries[i].capabilities.len() == 0 || entries[i].capabilities.contains(capability))
}

/// Whether a key counts as trusted.
pub open spec fn trusts(list: TrustView, pubkey: Seq<char>) -> bool {
    list.mode == TrustMode::Off || listed(list.entries, pubkey)
}

/// Whether a key counts as trusted for a capability.
pub open spec fn trusts_for(list: TrustView, pubkey: Seq<char>, capability: Seq<char>) -> bool {
    list.mode == TrustMode::Off || listed_for(list.entries, pubkey, capability)
}

/// No key is on the list twice.
pub open spec fn distinct_pubkeys(entries: Seq<TrustEntryView>) -> bool {
    forall|i: int, j: int|
        0 <= i < entries.len() && 0 <= j < entries.len() && (#[trigger] entries[i]).pubkey == (
        #[trigger] entries[j]).pubkey ==> i == j
}

/// The place of the first entry with the key, or the number of entries.
pub open spec fn pubkey_place(entries: Seq<TrustEntryView>, pubkey: Seq<char>) -> int
    decreases entries.len(),
{
    if entries.len() == 0 || entries[0].pubkey == pubkey {
        0
    } else {
        1 + pubkey_place(entries.drop_first(), pubkey)
    }
}

/// The key under which a peer on the list reads sealed messages, if it is known.
pub open spec fn sealing_key(entries: Seq<TrustEntryView>, pubkey: Seq<char>) -> Option<Seq<char>>
    decreases entries.len(),
{
    if entries.len() == 0 {
        None
    } else if entries[0].pubkey == pubkey {
        entries[0].encryption_pubkey
    } else {
        sealing_key(entries.drop_first(), pubkey)
    }
}

/// The place of the first entry with the nickname, or the number of entries.
pub open spec fn nickname_place(entries: Seq<TrustEntryView>, nickname: Seq<char>) -> int
    decreases entries.len(),
{
    if entries.len() == 0 || entries[0].nickname == nickname {
        0
    } else {
        1 + nickname_place(entries.drop_first(), nickname)
    }
}

/// The list with an entry, in the place of an earlier one for the same key or
/// else at the end.
pub open spec fn with_entry(entries: Seq<TrustEntryView>, entry: TrustEntryView) -> Seq<
    TrustEntryView,
> {
    let p = pubkey_place(entries, entry.pubkey);
    if p < entries.len() {
        entries.update(p, entry)
    } else {
        entries.push(entry)
    }
}

/// The place of the entry that a target means: the one with that key, or else
/// the first with that nickname, or else none (the number of entries).
pub open spec fn target_place(entries: Seq<TrustEntryView>, target: Seq<char>) -> int {
    let p = pubkey_place(entries, target);
    if p < entries.len() {
        p
    } else {
        nickname_place(entries, target)
    }
}

/// The trust list.
#[derive(Debug)]
pub struct TrustList {
    mode: TrustMode,
    entries: Vec<TrustEntry>,
}

impl View for TrustList {
    type V = TrustView;

    closed spec fn view(&self) -> TrustView {
        TrustView { mode: self.mode, entries: trust_entries(self.entries@) }
    }
}

impl TrustList {
    /// No key is on the list twice.
    pub open spec fn wf(&self) -> bool {
        distinct_pubkeys(self@.entries)
    }

    /// A list without entries that is used for nothing.
    pub fn empty() -> (res: TrustList)
        ensures
            res.wf(),
            res@ == (TrustView { mode: TrustMode::Off, entries: seq![] }),
    {
        TrustList::with_mode(TrustMode::Off)
    }

    /// A list without entries.
    pub fn with_mode(mode: TrustMode) -> (res: TrustList)
        ensures
            res.wf(),
            res@ == (TrustView { mode, entries: seq![] }),
    {
        let res = TrustList { mode, entries: Vec::new() };
        assert(res@.entries =~= seq![]);
        res
    }

    /// What the list is used for.
    pub fn mode(&self) -> (res: TrustMode)
        ensures
            res == self@.mode,
    {
        self.mode
    }

    /// Changes what the list is used for.
    pub fn set_mode(&mut self, mode: TrustMode)
        requires
            old(self).wf(),
        ensures
            final(self).wf(),
            final(self)@ == (TrustView { mode, ..old(self)@ }),
    {
        self.mode = mode;
    }

    /// All entries.
    pub fn entries(&self) -> (res: Vec<TrustEntry>)
        ensures
            trust_entries(res@) == self@.entries,
    {
        let mut out: Vec<TrustEntry> = Vec::new();
        let mut i: usize = 0;
        while i < self.entries.len()
            invariant
                0 <= i <= self.entries.len(),
                out.len() == i,
                forall|k: int| 0 <= k < i ==> (#[trigger] out@[k])@ == self.entries@[k]@,
            decreases self.entries.len() - i,
        {
            out.push(self.entries[i].clone());
            i = i + 1;
        }
        assert(trust_entries(out@) =~= self@.entries);
        out
    }

    /// The key under which a peer on the list reads sealed messages, if it is known.
    pub fn encryption_key_of(&self, pubkey: &str) -> (res: Option<String>)
        ensures
            opt_text(res) == sealing_key(self@.entries, pubkey@),
    {
        let ghost all = self@.entries;
        let mut i: usize = 0;
        assert(all.skip(0) =~= all);
        while i < self.entries.len()
            invariant
                0 <= i <= self.entries.len(),
                all == self@.entries,
                sealing_key(all, pubkey@) == sealing_key(all.skip(i as int), pubkey@),
            decreases self.entries.len() - i,
        {
            assert(all.skip(i as int)[0] == self.entries@[i as int]@);
            if same_text(self.entries[i].pubkey.as_str(), pubkey) {
                return clone_opt_text(&self.entries[i].encryption_pubkey);
            }
            assert(all.skip(i as int).drop_first() =~= all.skip(i + 1));
            i = i + 1;
        }
        None
    }

    /// Whether a key counts as trusted.
    pub fn is_trusted(&self, pubkey: &str) -> (res: bool)
        ensures
            res == trusts(self@, pubkey@),
    {
        if let TrustMode::Off = self.mode {
            return true;
        }
        let p: usize = self.find_pubkey(pubkey);
        proof {
            place_means_listed(self@.entries, pubkey@);
        }
        p < self.entries.len()
    }

    /// Whether a key counts as trusted for a capability.
    pub fn is_trusted_for(&self, pubkey: &str, capability: &str) -> (res: bool)
        ensures
            res == trusts_for(self@, pubkey@, capability@),
    {
        if let TrustMode::Off = self.mode {
            return true;
        }
        let mut i: usize = 0;
        while i < self.entries.len()
            invariant
                0 <= i <= self.entries.len(),
                forall|k: int|
                    0 <= k < i ==> !((#[trigger] self@.entries[k]).pubkey == pubkey@ && (
                    self@.entries[k].capabilities.len() == 0
                        || self@.entries[k].capabilities.contains(capability@))),
            decreases self.entries.len() - i,
        {
            let entry = &self.entries[i];
            assert(self@.entries[i as int] == entry@);
            if same_text(entry.pubkey.as_str(), pubkey) {
                if entry.capabilities.len() == 0 || contains_text(
                    &entry.capabilities,
                    capability,
                ) {
                    return true;
                }
            }
            i = i + 1;
        }
        false
    }

    /// Adds an entry; an earlier one for the same key is replaced.
    pub fn add(&mut self, entry: TrustEntry)
        requires
            old(self).wf(),
        ensures
            final(self).wf(),
            final(self)@ == (TrustView {
                entries: with_entry(old(self)@.entries, entry@),
                ..old(self)@
            }),
    {
        let p: usize = self.find_pubkey(entry.pubkey.as_str());
        proof {
            entry_keeps_distinct(self@.entries, entry@);
        }
        if p < self.entries.len() {
            self.entries.set(p, entry);
        } else {
            self.entries.push(entry);
        }
        assert(self@.entries =~= with_entry(old(self)@.entries, entry@));
    }

    /// Removes the entry for a key.
    pub fn remove(&mut self, pubkey: &str) -> (res: Option<TrustEntry>)
        requires
            old(self).wf(),
        ensures
            final(self).wf(),
            removed(
                old(self)@,
                final(self)@,
                res,
                pubkey_place(old(self)@.entries, pubkey@),
            ),
    {
        let p: usize = self.find_pubkey(pubkey);
        self.remove_at(p)
    }

    /// Removes the first entry with a nickname.
    pub fn remove_by_nickname(&mut self, nickname: &str) -> (res: Option<TrustEntry>)
        requires
            old(self).wf(),
        ensures
            final(self).wf(),
            removed(
                old(self)@,
                final(self)@,
                res,
                nickname_place(old(self)@.entries, nickname@),
            ),
    {
        let p: usize = self.find_nickname(nickname);
        self.remove_at(p)
    }

    /// Removes the entry that a target means: by key first, then by nickname.
    pub fn remove_target(&mut self, target: &str) -> (res: Option<TrustEntry>)
        requires
            old(self).wf(),
        ensures
            final(self).wf(),
            removed(old(self)@, final(self)@, res, target_place(old(self)@.entries, target@)),
    {
        proof {
            place_means_listed(self@.entries, target@);
        }
        match self.remove(target) {
            Some(entry) => Some(entry),
            None => self.remove_by_nickname(target),
        }
    }

    fn remove_at(&mut self, p: usize) -> (res: Option<TrustEntry>)
        requires
            old(self).wf(),
        ensures
            final(self).wf(),
            removed(old(self)@, final(self)@, res, p as int),
    {
        if p < self.entries.len() {
            let ghost before = self@.entries;
            let entry = self.entries.remove(p);
            assert(self@.entries =~= before.remove(p as int));
            assert forall|i: int, j: int|
                0 <= i < self@.entries.len() && 0 <= j < self@.entries.len() && (
                #[trigger] self@.entries[i]).pubkey == (
                #[trigger] self@.entries[j]).pubkey implies i == j by {
                let a = if i < p { i } else { i + 1 };
                let b = if j < p { j } else { j + 1 };
                assert(before[a].pubkey == before[b].pubkey);
            }
            Some(entry)
        } else {
            None
        }
    }

    fn find_pubkey(&self, pubkey: &str) -> (res: usize)
        ensures
            res == pubkey_place(self@.entries, pubkey@),
            res <= self.entries.len(),
    {
        let ghost all = self@.entries;
        let mut i: usize = 0;
        assert(all.skip(0) =~= all);
        while i < self.entries.len()
            invariant
                0 <= i <= self.entries.len(),
                all == trust_entries(self.entries@),
                pubkey_place(all, pubkey@) == i + pubkey_place(all.skip(i as int), pubkey@),
            decreases self.entries.len() - i,
        {
            assert(all.skip(i as int)[0] == all[i as int]);
            if same_text(self.entries[i].pubkey.as_str(), pubkey) {
                return i;
            }
            assert(all.skip(i as int).drop_first() =~= all.skip(i + 1));
            i = i + 1;
        }
        i
    }

    fn find_nickname(&self, nickname: &str) -> (res: usize)
        ensures
            res == nickname_place(self@.entries, nickname@),
            res <= self.entries.len(),
    {
        let ghost all = self@.entries;
        let mut i: usize = 0;
        assert(all.skip(0) =~= all);
        while i < self.entries.len()
            invariant
                0 <= i <= self.entries.len(),
                all == trust_entries(self.entries@),
                nickname_place(all, nickname@) == i + nickname_place(
                    all.skip(i as int),
                    nickname@,
                ),
            decreases self.entries.len() - i,
        {
            assert(all.skip(i as int)[0] == all[i as int]);
            if same_text(self.entries[i].nickname.as_str(), nickname) {
                return i;
            }
            assert(all.skip(i as int).drop_first() =~= all.skip(i + 1));
            i = i + 1;
        }
        i
    }
}

/// What a removal does: the entry in the place goes and is handed out; without
/// such a place nothing changes.
pub open spec fn removed(
    before: TrustView,
    after: TrustView,
    res: Option<TrustEntry>,
    place: int,
) -> bool {
    if 0 <= place < before.entries.len() {
        &&& res is Some
        &&& res->0@ == before.entries[place]
        &&& after == (TrustView { entries: before.entries.remove(place), ..before })
    } else {
        &&& res is None
        &&& after == before
    }
}

proof fn place_means_listed(entries: Seq<TrustEntryView>, pubkey: Seq<char>)
    ensures
        0 <= pubkey_place(entries, pubkey) <= entries.len(),
        pubkey_place(entries, pubkey) < entries.len() <==> listed(entries, pubkey),
        pubkey_place(entries, pubkey) < entries.len() ==> entries[pubkey_place(
            entries,
            pubkey,
        )].pubkey == pubkey,
    decreases entries.len(),
{
    if entries.len() > 0 && entries[0].pubkey != pubkey {
        let rest = entries.drop_first();
        place_means_listed(rest, pubkey);
        if listed(entries, pubkey) {
            let i = choose|i: int|
                0 <= i < entries.len() && (#[trigger] entries[i]).pubkey == pubkey;
            assert(rest[i - 1] == entries[i]);
        }
        if listed(rest, pubkey) {
            let i = choose|i: int| 0 <= i < rest.len() && (#[trigger] rest[i]).pubkey == pubkey;
            assert(entries[i + 1] == rest[i]);
        }
    }
}

proof fn entry_keeps_distinct(entries: Seq<TrustEntryView>, entry: TrustEntryView)
    requires
        distinct_pubkeys(entries),
    ensures
        distinct_pubkeys(with_entry(entries, entry)),
        0 <= pubkey_place(entries, entry.pubkey) <= entries.len(),
{
    place_means_listed(entries, entry.pubkey);
    let after = with_entry(entries, entry);
    let p = pubkey_place(entries, entry.pubkey);
    assert forall|i: int, j: int|
        0 <= i < after.len() && 0 <= j < after.len() && (#[trigger] after[i]).pubkey == (
        #[trigger] after[j]).pubkey implies i == j by {
        if p < entries.len() {
            assert(entries[i].pubkey == entries[j].pubkey);
        } else if i < entries.len() && j < entries.len() {
            assert(entries[i].pubkey == entries[j].pubkey);
        } else if i < entries.len() {
            assert(entries[i].pubkey == entry.pubkey);
        } else if j < entries.len() {
            assert(entries[j].pubkey == entry.pubkey);
        }
    }
}

/// Where the list is off, everybody is trusted, for everything.
pub proof fn off_trusts_everybody(list: TrustView, pubkey: Seq<char>, capability: Seq<char>)
    requires
        list.mode == TrustMode::Off,
    ensures
        trusts(list, pubkey),
        trusts_for(list, pubkey, capability),
{
}

/// Whoever is trusted for a capability is trusted.
pub proof fn trust_for_is_trust(list: TrustView, pubkey: Seq<char>, capability: Seq<char>)
    requires
        trusts_for(list, pubkey, capability),
    ensures
        trusts(list, pubkey),
{
    if list.mode != TrustMode::Off {
        let i = choose|i: int|
            0 <= i < list.entries.len() && (#[trigger] list.entries[i]).pubkey == pubkey && (
            list.entries[i].capabilities.len() == 0 || list.entries[i].capabilities.contains(
                capability,
            ));
        assert(list.entries[i].pubkey == pubkey);
    }
}

/// A key that was added is trusted, for the capabilities of its entry.
pub proof fn added_is_trusted(list: TrustView, entry: TrustEntryView, capability: Seq<char>)
    requires
        distinct_pubkeys(list.entries),
        entry.capabilities.len() == 0 || entry.capabilities.contains(capability),
    ensures
        trusts(
            TrustView { entries: with_entry(list.entries, entry), ..list },
            entry.pubkey,
        ),
        trusts_for(
            TrustView { entries: with_entry(list.entries, entry), ..list },
            entry.pubkey,
            capability,
        ),
{
    place_means_listed(list.entries, entry.pubkey);
    let after = with_entry(list.entries, entry);
    let p = pubkey_place(list.entries, entry.pubkey);
    assert(after[p] == entry);
}

/// Where the list is in use, exactly those on it are trusted, and for a capability
/// exactly those whose entry names it or names none.
pub proof fn only_those_listed_are_trusted(
    list: TrustView,
    pubkey: Seq<char>,
    capability: Seq<char>,
)
    requires
        list.mode != TrustMode::Off,
    ensures
        trusts(list, pubkey) <==> exists|i: int|
            0 <= i < list.entries.len() && (#[trigger] list.entries[i]).pubkey == pubkey,
        trusts_for(list, pubkey, capability) <==> exists|i: int|
            {
                &&& 0 <= i < list.entries.len()
                &&& (#[trigger] list.entries[i]).pubkey == pubkey
                &&& list.entries[i].capabilities.len() == 0
                    || list.entries[i].capabilities.contains(capability)
            },
{
}

/// An entry takes the place of an earlier one for its key, or comes last; the entries
/// for other keys stay where they are. Afterwards the key has this entry and no other.
pub proof fn an_entry_replaces_its_own_kind(
    entries: Seq<TrustEntryView>,
    entry: TrustEntryView,
)
    requires
        distinct_pubkeys(entries),
    ensures
        with_entry(entries, entry).contains(entry),
        forall|i: int|
            0 <= i < with_entry(entries, entry).len() && (#[trigger] with_entry(
                entries,
                entry,
            )[i]).pubkey == entry.pubkey ==> with_entry(entries, entry)[i] == entry,
        forall|i: int|
            0 <= i < entries.len() && (#[trigger] entries[i]).pubkey != entry.pubkey ==> with_entry(
                entries,
                entry,
            )[i] == entries[i],
        with_entry(entries, entry).len() == if listed(entries, entry.pubkey) {
            entries.len()
        } else {
            entries.len() + 1
        },
{
    place_means_listed(entries, entry.pubkey);
    entry_keeps_distinct(entries, entry);
    let after = with_entry(entries, entry);
    let p = pubkey_place(entries, entry.pubkey);
    assert(after[p] == entry);
    assert forall|i: int| 0 <= i < after.len() && (#[trigger] after[i]).pubkey
        == entry.pubkey implies after[i] == entry by {
        assert(after[i].pubkey == after[p].pubkey);
    }
}

/// Removing a key takes away its entry and no other: afterwards it is not trusted any
/// more where the list is in use, and everybody else is trusted as before. A key that
/// is not on the list leaves it as it is.
pub proof fn a_removed_key_is_not_trusted(
    before: TrustView,
    after: TrustView,
    res: Option<TrustEntry>,
    pubkey: Seq<char>,
)
    requires
        distinct_pubkeys(before.entries),
        removed(before, after, res, pubkey_place(before.entries, pubkey)),
    ensures
        after.mode == before.mode,
        before.mode != TrustMode::Off ==> !trusts(after, pubkey),
        forall|other: Seq<char>|
            other != pubkey ==> (#[trigger] trusts(after, other) <==> trusts(before, other)),
        res is Some <==> listed(before.entries, pubkey),
        res is Some ==> res->0@.pubkey == pubkey,
        res is None ==> after == before,
{
    place_means_listed(before.entries, pubkey);
    let p = pubkey_place(before.entries, pubkey);
    let rest = after.entries;
    if p < before.entries.len() {
        assert forall|i: int| 0 <= i < rest.len() implies #[trigger] rest[i] == before.entries[if i
            < p {
            i
        } else {
            i + 1
        }] by {}
        if listed(rest, pubkey) {
            let i = choose|i: int| 0 <= i < rest.len() && (#[trigger] rest[i]).pubkey == pubkey;
            let k = if i < p {
                i
            } else {
                i + 1
            };
            assert(before.entries[k].pubkey == before.entries[p].pubkey);
        }
        assert forall|other: Seq<char>| other != pubkey implies (#[trigger] listed(rest, other)
            <==> listed(before.entries, other)) by {
            if listed(before.entries, other) {
                let k = choose|k: int|
                    0 <= k < before.entries.len() && (#[trigger] before.entries[k]).pubkey == other;
                let i = if k < p {
                    k
                } else {
                    k - 1
                };
                assert(rest[i].pubkey == other);
            }
            if listed(rest, other) {
                let i = choose|i: int| 0 <= i < rest.len() && (#[trigger] rest[i]).pubkey == other;
                let k = if i < p {
                    i
                } else {
                    i + 1
                };
                assert(before.entries[k].pubkey == other);
            }
        }
        assert forall|other: Seq<char>| other != pubkey implies (#[trigger] trusts(after, other)
            <==> trusts(before, other)) by {
            assert(listed(rest, other) <==> listed(before.entries, other));
        }
    }
}

/// A target means the entry with that key where there is one, and otherwise the first
/// entry with that nickname; there is none exactly where neither is on the list.
pub proof fn a_target_is_a_key_first(entries: Seq<TrustEntryView>, target: Seq<char>)
    ensures
        listed(entries, target) ==> entries[target_place(entries, target)].pubkey == target,
        !listed(entries, target) && target_place(entries, target) < entries.len() ==> {
            &&& entries[target_place(entries, target)].nickname == target
            &&& forall|j: int|
                0 <= j < target_place(entries, target) ==> (#[trigger] entries[j]).nickname
                    != target
        },
        target_place(entries, target) >= entries.len() ==> forall|i: int|
            0 <= i < entries.len() ==> (#[trigger] entries[i]).pubkey != target
                && entries[i].nickname != target,
        0 <= target_place(entries, target) <= entries.len(),
{
    place_means_listed(entries, target);
    nickname_is_first(entries, target);
}

proof fn nickname_is_first(entries: Seq<TrustEntryView>, nickname: Seq<char>)
    ensures
        0 <= nickname_place(entries, nickname) <= entries.len(),
        nickname_place(entries, nickname) < entries.len() ==> entries[nickname_place(
            entries,
            nickname,
        )].nickname == nickname,
        forall|j: int|
            0 <= j < nickname_place(entries, nickname) ==> (#[trigger] entries[j]).nickname
                != nickname,
    decreases entries.len(),
{
    if entries.len() > 0 && entries[0].nickname != nickname {
        let rest = entries.drop_first();
        nickname_is_first(rest, nickname);
        assert forall|j: int|
            0 <= j < nickname_place(entries, nickname) implies (#[trigger] entries[j]).nickname
            != nickname by {
            if j > 0 {
                assert(rest[j - 1] == entries[j]);
            }
        }
    }
}

} // verus!
