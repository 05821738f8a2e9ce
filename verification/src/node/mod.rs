//! The agent's node: its identity, its channel and everything it keeps track of.
//!
//! Publishing, subscribing and waiting are the caller's; the node decides what is
//! sent, what is accepted and what is remembered.

use vstd::prelude::*;
use crate::agent::{AgentCard, CardView, IntroBundle};
use crate::clock::now_secs;
use crate::error::NodeError;
use crate::keys::{hex_keyfile, is_secret, keyfile_fault, parse_keyfile, public_key_of, SigningKey};
use crate::load::{bucket_of, LoadBucket, LoadStatus};
use crate::metrics::{counted, snapshot_of, zeroed, Metrics, MetricsSnapshot};
use crate::node::send::with_session_task;
use crate::order::filtered_members;
use crate::presence::{expired_at, live_rows, PeerMap, PeerRows, PeerView};
use crate::retry::RetryConfig;
use crate::sds::channel::{fresh_channel, MessageChannel};
use crate::sds::config::{default_config, ChannelConfig};
use crate::sds::state::{last_items, ChannelState};
use crate::session::{
    begun, seen_ids, the_last_tasks_are_kept, with_task, with_tasks, within_ceiling, Session,
    SessionView,
};
use crate::storage::StorageOffloadConfig;
use crate::table::{
    distinct_keys, has_key, lookup, mapped, mapped_keys, mapped_put, with_row, TextTable,
};
use crate::text::{join2, prefix, texts};
use crate::trust::{
    removed, target_place, trust_entries, trusts, trusts_for, with_entry, TrustEntry, TrustList,
    TrustMode, TrustView,
};

pub mod delegation;
pub mod discovery;
pub mod discovery_laws;
pub mod intake;
pub mod laws;
pub mod offload;
pub mod outgoing;
pub mod payment;
pub mod poll;
pub mod respond;
pub mod send;
pub mod task_laws;

verus! {

/// The version that cards of this library carry.
pub const CARD_VERSION: &'static str = "0.1.0";

/// The identity under which an agent reads encrypted messages: its public half.
/// The secret half stays with whoever decrypts.
#[derive(Debug)]
pub struct AgentIdentity {
    pub public_key: String,
}

/// What is asked and offered in payments.
#[derive(Debug)]
pub struct PaymentConfig {
    /// The least amount that an incoming task must pay; zero asks for nothing.
    pub required_amount: u64,
    /// Whether outgoing tasks are paid for.
    pub auto_pay: bool,
    /// The amount that outgoing tasks pay.
    pub auto_pay_amount: u64,
    /// Whether payments are looked up on chain instead of being believed.
    pub verify_on_chain: bool,
    /// The account that payments must go to; empty means any.
    pub receiving_account: String,
}

/// What a [`PaymentConfig`] says.
#[verifier::ext_equal]
pub struct PaymentView {
    pub required_amount: u64,
    pub auto_pay: bool,
    pub auto_pay_amount: u64,
    pub verify_on_chain: bool,
    pub receiving_account: Seq<char>,
}

impl View for PaymentConfig {
    type V = PaymentView;

    open spec fn view(&self) -> PaymentView {
        PaymentView {
            required_amount: self.required_amount,
            auto_pay: self.auto_pay,
            auto_pay_amount: self.auto_pay_amount,
            verify_on_chain: self.verify_on_chain,
            receiving_account: self.receiving_account@,
        }
    }
}

/// What a node is.
#[verifier::ext_equal]
pub struct NodeState {
    /// The agent's public card.
    pub card: CardView,
    /// The channel over which tasks are sent reliably.
    pub channel: ChannelState,
    /// The secret bytes of the signing key.
    pub key: Seq<u8>,
    /// The public key for encrypted messages, where encryption is on.
    pub identity: Option<Seq<char>>,
    /// Conversations, by the identifier under which they are known.
    pub sessions: Seq<(Seq<char>, SessionView)>,
    /// Payloads of more bytes than this go to storage.
    pub offload: Option<usize>,
    pub payment: Option<PaymentView>,
    /// Payments that were accepted.
    pub seen_payments: Seq<Seq<char>>,
    pub peers: PeerRows,
    pub has_registry: bool,
    pub retry: Option<RetryConfig>,
    pub round_robin: usize,
    pub metrics: Metrics,
    pub trust: TrustView,
    pub keeps_history: bool,
    /// Tasks under way.
    pub in_flight: usize,
    pub max_concurrent: u32,
}

/// The agent's node over a transport.
pub struct LmaoNode<T> {
    /// This agent's public card.
    pub card: AgentCard,
    channel: MessageChannel<T>,
    signing_key: SigningKey,
    identity: Option<AgentIdentity>,
    sessions: TextTable<Session>,
    offload: Option<usize>,
    payment: Option<PaymentConfig>,
    seen_payments: Vec<String>,
    peer_map: PeerMap,
    has_registry: bool,
    retry_config: Option<RetryConfig>,
    round_robin_counter: usize,
    metrics: Metrics,
    trust_list: TrustList,
    keeps_history: bool,
    in_flight: usize,
    max_concurrent: u32,
}

impl<T> View for LmaoNode<T> {
    type V = NodeState;

    closed spec fn view(&self) -> NodeState {
        NodeState {
            card: self.card@,
            channel: self.channel@,
            key: self.signing_key@,
            identity: match self.identity {
                Some(i) => Some(i.public_key@),
                None => None,
            },
            sessions: mapped(self.sessions@, |s: Session| s@),
            offload: self.offload,
            payment: match self.payment {
                Some(p) => Some(p@),
                None => None,
            },
            seen_payments: texts(self.seen_payments@),
            peers: self.peer_map@,
            has_registry: self.has_registry,
            retry: self.retry_config,
            round_robin: self.round_robin_counter,
            metrics: self.metrics,
            trust: self.trust_list@,
            keeps_history: self.keeps_history,
            in_flight: self.in_flight,
            max_concurrent: self.max_concurrent,
        }
    }
}

/// The card of an agent without encryption.
pub open spec fn plain_card(
    name: Seq<char>,
    description: Seq<char>,
    capabilities: Seq<Seq<char>>,
    public_key: Seq<char>,
) -> CardView {
    CardView {
        name,
        description,
        version: CARD_VERSION@,
        capabilities,
        public_key,
        intro_bundle: None,
    }
}

/// The name of a node's channel: the start of its public key.
pub open spec fn channel_name(public_key: Seq<char>) -> Seq<char> {
    "node-"@ + public_key.take(8)
}

/// A node as it starts: nothing sent, nothing seen, nobody known.
pub open spec fn fresh_node(card: CardView, key: Seq<u8>, config: ChannelConfig, clock: u64) -> NodeState {
    NodeState {
        card,
        channel: fresh_channel(
            channel_name(public_key_of(key)),
            public_key_of(key),
            config,
            clock,
        ),
        key,
        identity: None,
        sessions: seq![],
        offload: None,
        payment: None,
        seen_payments: seq![],
        peers: seq![],
        has_registry: false,
        retry: None,
        round_robin: 0,
        metrics: zeroed(),
        trust: TrustView { mode: TrustMode::Off, entries: seq![] },
        keeps_history: false,
        in_flight: 0,
        max_concurrent: 1,
    }
}

/// The lowest thirty-two bits of a count.
pub open spec fn low32(n: usize) -> u32 {
    (n as nat % 0x1_0000_0000) as u32
}

fn count32(n: usize) -> (res: u32)
    ensures
        res == low32(n),
{
    ((n as u64) % 0x1_0000_0000) as u32
}

/// The sessions in which a task was seen within `max_age` seconds.
pub open spec fn active_sessions(
    sessions: Seq<(Seq<char>, SessionView)>,
    max_age: u64,
    now: u64,
) -> Seq<(Seq<char>, SessionView)> {
    sessions.filter(
        |row: (Seq<char>, SessionView)|
            now <= row.1.last_seen || now - row.1.last_seen <= max_age,
    )
}

/// Every session is known under its own identifier.
pub open spec fn own_ids(sessions: Seq<(Seq<char>, SessionView)>) -> bool {
    forall|i: int| 0 <= i < sessions.len() ==> (#[trigger] sessions[i]).1.id == sessions[i].0
}

/// Every session keeps within its ceiling.
pub open spec fn all_within_ceiling(sessions: Seq<(Seq<char>, SessionView)>) -> bool {
    forall|i: int| 0 <= i < sessions.len() ==> within_ceiling((#[trigger] sessions[i]).1)
}

impl<T> LmaoNode<T> {
    /// Everything that the node keeps is in order.
    pub closed spec fn wf(&self) -> bool {
        &&& self.channel.wf()
        &&& self.signing_key.wf()
        &&& self.sessions.wf()
        &&& own_ids(self@.sessions)
        &&& all_within_ceiling(self@.sessions)
        &&& self.peer_map.wf()
        &&& self.trust_list.wf()
        &&& self.max_concurrent >= 1
    }

    /// The transport that the node was made with.
    pub closed spec fn carrier(&self) -> T {
        self.channel.carrier()
    }

    fn assemble(
        name: &str,
        description: &str,
        capabilities: Vec<String>,
        transport: T,
        signing_key: SigningKey,
        config: ChannelConfig,
    ) -> (res: LmaoNode<T>)
        requires
            signing_key.wf(),
        ensures
            res.wf(),
            res.carrier() == transport,
            res@ == fresh_node(
                plain_card(
                    name@,
                    description@,
                    texts(capabilities@),
                    public_key_of(signing_key@),
                ),
                signing_key@,
                config,
                res@.channel.clock,
            ),
    {
        let public_key = signing_key.public_key_hex().to_owned();
        let channel_id = join2("node-", prefix(public_key.as_str(), 8).as_str());
        let card = AgentCard {
            name: name.to_owned(),
            description: description.to_owned(),
            version: CARD_VERSION.to_owned(),
            capabilities,
            public_key: public_key.clone(),
            intro_bundle: None,
        };
        let node = LmaoNode {
            card,
            channel: MessageChannel::with_config(channel_id, public_key, transport, config),
            signing_key,
            identity: None,
            sessions: TextTable::new(),
            offload: None,
            payment: None,
            seen_payments: Vec::new(),
            peer_map: PeerMap::new(),
            has_registry: false,
            retry_config: None,
            round_robin_counter: 0,
            metrics: Metrics::new(),
            trust_list: TrustList::empty(),
            keeps_history: false,
            in_flight: 0,
            max_concurrent: 1,
        };
        assert(node@.sessions =~= seq![]);
        assert(node@.seen_payments =~= seq![]);
        assert(node@ =~= fresh_node(
            plain_card(
                name@,
                description@,
                texts(capabilities@),
                public_key_of(signing_key@),
            ),
            signing_key@,
            config,
            node@.channel.clock,
        ));
        node
    }

    /// A node with a random key and without encryption.
    pub fn new(name: &str, description: &str, capabilities: Vec<String>, transport: T) -> (res:
        LmaoNode<T>)
        ensures
            res.wf(),
            res.carrier() == transport,
            is_secret(res@.key),
            res@ == fresh_node(
                plain_card(name@, description@, texts(capabilities@), public_key_of(res@.key)),
                res@.key,
                default_config(),
                res@.channel.clock,
            ),
    {
        LmaoNode::from_key(name, description, capabilities, transport, SigningKey::random())
    }

    /// A node with a random key and with encryption under the given identity.
    pub fn new_encrypted(
        name: &str,
        description: &str,
        capabilities: Vec<String>,
        transport: T,
        identity: AgentIdentity,
    ) -> (res: LmaoNode<T>)
        ensures
            res.wf(),
            res.carrier() == transport,
            is_secret(res@.key),
            res@ == encrypted(
                fresh_node(
                    plain_card(name@, description@, texts(capabilities@), public_key_of(res@.key)),
                    res@.key,
                    default_config(),
                    res@.channel.clock,
                ),
                identity.public_key@,
            ),
    {
        LmaoNode::new(name, description, capabilities, transport).with_identity(identity)
    }

    /// A node with the given key and without encryption.
    pub fn from_key(
        name: &str,
        description: &str,
        capabilities: Vec<String>,
        transport: T,
        signing_key: SigningKey,
    ) -> (res: LmaoNode<T>)
        requires
            signing_key.wf(),
        ensures
            res.wf(),
            res.carrier() == transport,
            res@ == fresh_node(
                plain_card(
                    name@,
                    description@,
                    texts(capabilities@),
                    public_key_of(signing_key@),
                ),
                signing_key@,
                default_config(),
                res@.channel.clock,
            ),
    {
        LmaoNode::assemble(
            name,
            description,
            capabilities,
            transport,
            signing_key,
            ChannelConfig::default(),
        )
    }

    /// Another name for [`from_key`](Self::from_key).
    pub fn new_with_key(
        name: &str,
        description: &str,
        capabilities: Vec<String>,
        transport: T,
        signing_key: SigningKey,
    ) -> (res: LmaoNode<T>)
        requires
            signing_key.wf(),
        ensures
            res.wf(),
            res.carrier() == transport,
            res@ == fresh_node(
                plain_card(
                    name@,
                    description@,
                    texts(capabilities@),
                    public_key_of(signing_key@),
                ),
                signing_key@,
                default_config(),
                res@.channel.clock,
            ),
    {
        LmaoNode::from_key(name, description, capabilities, transport, signing_key)
    }

    /// A node whose key stands in a key file, given by the file's text; `path`
    /// names the file in errors.
    pub fn from_keyfile_text(
        name: &str,
        description: &str,
        capabilities: Vec<String>,
        transport: T,
        path: &str,
        text: &str,
    ) -> (res: Result<LmaoNode<T>, NodeError>)
        ensures
            match keyfile_fault(path@, text@) {
                Some(fault) => res is Err && res->Err_0.is_other(fault),
                None => {
                    &&& res is Ok
                    &&& res->Ok_0.wf()
                    &&& res->Ok_0.carrier() == transport
                    &&& res->Ok_0@ == fresh_node(
                        plain_card(
                            name@,
                            description@,
                            texts(capabilities@),
                            public_key_of(hex_keyfile(text@)),
                        ),
                        hex_keyfile(text@),
                        default_config(),
                        res->Ok_0@.channel.clock,
                    )
                },
            },
    {
        match parse_keyfile(path, text) {
            Ok(key) => Ok(LmaoNode::from_key(name, description, capabilities, transport, key)),
            Err(e) => Err(e),
        }
    }

    /// A node with a random key and the given channel settings.
    pub fn with_config(
        name: &str,
        description: &str,
        capabilities: Vec<String>,
        transport: T,
        config: ChannelConfig,
    ) -> (res: LmaoNode<T>)
        ensures
            res.wf(),
            res.carrier() == transport,
            is_secret(res@.key),
            res@ == fresh_node(
                plain_card(name@, description@, texts(capabilities@), public_key_of(res@.key)),
                res@.key,
                config,
                res@.channel.clock,
            ),
    {
        LmaoNode::assemble(
            name,
            description,
            capabilities,
            transport,
            SigningKey::random(),
            config,
        )
    }

    /// Switches on the offloading of large payloads to storage.
    pub fn with_storage_offload<B>(self, config: &StorageOffloadConfig<B>) -> (res: LmaoNode<T>)
        requires
            self.wf(),
        ensures
            res.wf(),
            res.carrier() == self.carrier(),
            res@ == (NodeState { offload: Some(config.threshold_bytes), ..self@ }),
    {
        let mut node = self;
        node.offload = Some(config.threshold_bytes);
        node
    }

    /// Switches on payments.
    pub fn with_payment(self, config: PaymentConfig) -> (res: LmaoNode<T>)
        requires
            self.wf(),
        ensures
            res.wf(),
            res.carrier() == self.carrier(),
            res@ == (NodeState { payment: Some(config@), ..self@ }),
    {
        let mut node = self;
        node.payment = Some(config);
        node
    }

    /// Switches on retries of transport failures.
    pub fn with_retry(self, config: RetryConfig) -> (res: LmaoNode<T>)
        requires
            self.wf(),
        ensures
            res.wf(),
            res.carrier() == self.carrier(),
            res@ == (NodeState { retry: Some(config), ..self@ }),
    {
        let mut node = self;
        node.retry_config = Some(config);
        node
    }

    /// Notes that there is a registry of agents.
    pub fn with_registry(self) -> (res: LmaoNode<T>)
        requires
            self.wf(),
        ensures
            res.wf(),
            res.carrier() == self.carrier(),
            res@ == (NodeState { has_registry: true, ..self@ }),
    {
        let mut node = self;
        node.has_registry = true;
        node
    }

    /// Sets the trust list.
    pub fn with_trust_list(self, list: TrustList) -> (res: LmaoNode<T>)
        requires
            self.wf(),
            list.wf(),
        ensures
            res.wf(),
            res.carrier() == self.carrier(),
            res@ == (NodeState { trust: list@, ..self@ }),
    {
        let mut node = self;
        node.trust_list = list;
        node
    }

    /// Notes that there is a task history to write to.
    pub fn with_history(self) -> (res: LmaoNode<T>)
        requires
            self.wf(),
        ensures
            res.wf(),
            res.carrier() == self.carrier(),
            res@ == (NodeState { keeps_history: true, ..self@ }),
    {
        let mut node = self;
        node.keeps_history = true;
        node
    }

    /// Sets how many tasks this agent works on at once, at least one.
    pub fn with_max_concurrent(self, n: u32) -> (res: LmaoNode<T>)
        requires
            self.wf(),
        ensures
            res.wf(),
            res.carrier() == self.carrier(),
            res@ == (NodeState {
                max_concurrent: if n < 1 {
                    1
                } else {
                    n
                },
                ..self@
            }),
    {
        let mut node = self;
        node.max_concurrent = if n < 1 {
            1
        } else {
            n
        };
        node
    }

    /// Sets the identity for encrypted messages, and puts its public key on the
    /// card.
    pub fn with_identity(self, identity: AgentIdentity) -> (res: LmaoNode<T>)
        requires
            self.wf(),
        ensures
            res.wf(),
            res.carrier() == self.carrier(),
            res@ == encrypted(self@, identity.public_key@),
    {
        let mut node = self;
        node.card.intro_bundle = Some(IntroBundle::new(identity.public_key.as_str()));
        node.identity = Some(identity);
        assert(node@ =~= encrypted(self@, identity.public_key@));
        node
    }

    /// Whether the task history is written.
    pub fn keeps_history(&self) -> (res: bool)
        ensures
            res == self@.keeps_history,
    {
        self.keeps_history
    }

    /// How many tasks this agent works on at once.
    pub fn max_concurrent(&self) -> (res: u32)
        ensures
            res == self@.max_concurrent,
    {
        self.max_concurrent
    }

    /// Notes that a task is under way, and returns how many are.
    pub fn load_inc(&mut self) -> (res: usize)
        requires
            old(self).wf(),
        ensures
            final(self).wf(),
            final(self).carrier() == old(self).carrier(),
            final(self)@ == (NodeState { in_flight: res, ..old(self)@ }),
            res == if old(self)@.in_flight == usize::MAX {
                0
            } else {
                old(self)@.in_flight + 1
            },
    {
        self.in_flight = self.in_flight.wrapping_add(1);
        self.in_flight
    }

    /// Notes that a task is finished, and returns how many are under way. With
    /// none under way there is nothing to finish.
    pub fn load_dec(&mut self) -> (res: usize)
        requires
            old(self).wf(),
        ensures
            final(self).wf(),
            final(self).carrier() == old(self).carrier(),
            final(self)@ == (NodeState { in_flight: res, ..old(self)@ }),
            res == if old(self)@.in_flight == 0 {
                0
            } else {
                old(self)@.in_flight - 1
            },
    {
        if self.in_flight > 0 {
            self.in_flight = self.in_flight - 1;
        }
        self.in_flight
    }

    /// How many tasks are under way.
    pub fn in_flight_count(&self) -> (res: usize)
        ensures
            res == self@.in_flight,
    {
        self.in_flight
    }

    /// The load that this agent reports right now.
    pub fn current_load_status(&self) -> (res: LoadStatus)
        ensures
            res == load_of(self@),
    {
        let queue_depth: u32 = count32(self.in_flight);
        LoadStatus {
            bucket: LoadBucket::from_load(queue_depth, self.max_concurrent),
            queue_depth,
            max_concurrent: self.max_concurrent,
            avg_latency_ms: 0,
        }
    }

    /// Whether this agent is at its ceiling.
    pub fn is_at_capacity(&self) -> (res: bool)
        ensures
            res == (low32(self@.in_flight) >= self@.max_concurrent),
    {
        count32(self.in_flight) >= self.max_concurrent
    }

    /// Whether a key counts as trusted.
    pub fn is_trusted(&self, pubkey: &str) -> (res: bool)
        ensures
            res == trusts(self@.trust, pubkey@),
    {
        self.trust_list.is_trusted(pubkey)
    }

    /// Whether a key counts as trusted for a capability.
    pub fn is_trusted_for(&self, pubkey: &str, capability: &str) -> (res: bool)
        ensures
            res == trusts_for(self@.trust, pubkey@, capability@),
    {
        self.trust_list.is_trusted_for(pubkey, capability)
    }

    /// What the trust list is used for.
    pub fn trust_mode(&self) -> (res: TrustMode)
        ensures
            res == self@.trust.mode,
    {
        self.trust_list.mode()
    }

    /// The trust list's mode and entries.
    pub fn trust_snapshot(&self) -> (res: (TrustMode, Vec<TrustEntry>))
        ensures
            res.0 == self@.trust.mode,
            trust_entries(res.1@) == self@.trust.entries,
    {
        (self.trust_list.mode(), self.trust_list.entries())
    }

    /// Adds an entry to the trust list; an earlier one for the same key is
    /// replaced.
    pub fn trust_add(&mut self, entry: TrustEntry)
        requires
            old(self).wf(),
        ensures
            final(self).wf(),
            final(self).carrier() == old(self).carrier(),
            final(self)@ == (NodeState {
                trust: TrustView {
                    entries: with_entry(old(self)@.trust.entries, entry@),
                    ..old(self)@.trust
                },
                ..old(self)@
            }),
    {
        self.trust_list.add(entry);
    }

    /// Removes the entry with the given key, or else the first with the given
    /// nickname, and hands it out.
    pub fn trust_remove(&mut self, target: &str) -> (res: Option<TrustEntry>)
        requires
            old(self).wf(),
        ensures
            final(self).wf(),
            final(self).carrier() == old(self).carrier(),
            removed(
                old(self)@.trust,
                final(self)@.trust,
                res,
                target_place(old(self)@.trust.entries, target@),
            ),
            final(self)@ == (NodeState { trust: final(self)@.trust, ..old(self)@ }),
    {
        self.trust_list.remove_target(target)
    }

    /// Changes what the trust list is used for.
    pub fn trust_set_mode(&mut self, mode: TrustMode)
        requires
            old(self).wf(),
        ensures
            final(self).wf(),
            final(self).carrier() == old(self).carrier(),
            final(self)@ == (NodeState {
                trust: TrustView { mode, ..old(self)@.trust },
                ..old(self)@
            }),
    {
        self.trust_list.set_mode(mode);
    }

    /// This agent's public key.
    pub fn pubkey(&self) -> (res: &str)
        ensures
            res@ == self@.card.public_key,
    {
        self.card.public_key.as_str()
    }

    /// The signing key.
    pub fn signing_key(&self) -> (res: &SigningKey)
        requires
            self.wf(),
        ensures
            res@ == self@.key,
            res.wf(),
    {
        &self.signing_key
    }

    /// The identity for encrypted messages, where encryption is on.
    pub fn identity(&self) -> (res: Option<&AgentIdentity>)
        ensures
            res is Some <==> self@.identity is Some,
            res is Some ==> self@.identity == Some(res->0.public_key@),
    {
        self.identity.as_ref()
    }

    /// The channel over which tasks are sent reliably.
    pub fn channel(&self) -> (res: &MessageChannel<T>)
        requires
            self.wf(),
        ensures
            res@ == self@.channel,
            res.wf(),
            res.carrier() == self.carrier(),
    {
        &self.channel
    }

    /// The channel, to send over it. The node is the same but for what becomes of
    /// the channel.
    pub fn channel_mut(&mut self) -> (res: &mut MessageChannel<T>)
        requires
            old(self).wf(),
        ensures
            res@ == old(self)@.channel,
            res.wf(),
            res.carrier() == old(self).carrier(),
            final(res).wf() ==> final(self).wf(),
            final(self).carrier() == final(res).carrier(),
            final(self)@ == (NodeState { channel: final(res)@, ..old(self)@ }),
    {
        &mut self.channel
    }

    /// How transport failures are retried, if they are.
    pub fn retry_config(&self) -> (res: Option<&RetryConfig>)
        ensures
            res is Some <==> self@.retry is Some,
            res is Some ==> self@.retry == Some(*res->0),
    {
        self.retry_config.as_ref()
    }

    /// How many delegations went round robin.
    pub fn round_robin_counter(&self) -> (res: usize)
        ensures
            res == self@.round_robin,
    {
        self.round_robin_counter
    }

    /// A snapshot of the counters.
    pub fn metrics(&self) -> (res: MetricsSnapshot)
        ensures
            res == snapshot_of(self@.metrics),
    {
        self.metrics.snapshot()
    }

    /// What is asked and offered in payments, where payments are on.
    pub fn payment(&self) -> (res: Option<&PaymentConfig>)
        ensures
            res is Some <==> self@.payment is Some,
            res is Some ==> self@.payment == Some(res->0@),
    {
        self.payment.as_ref()
    }

    /// The known peers.
    pub fn peers(&self) -> (res: &PeerMap)
        requires
            self.wf(),
        ensures
            res@ == self@.peers,
            res.wf(),
    {
        &self.peer_map
    }

    /// The known peers, to change them. The node is the same but for what becomes
    /// of them.
    pub fn peers_mut(&mut self) -> (res: &mut PeerMap)
        requires
            old(self).wf(),
        ensures
            res@ == old(self)@.peers,
            res.wf(),
            final(res).wf() ==> final(self).wf(),
            final(self).carrier() == old(self).carrier(),
            final(self)@ == (NodeState { peers: final(res)@, ..old(self)@ }),
    {
        &mut self.peer_map
    }

    /// Begins a conversation with a peer, under a fresh identifier.
    pub fn create_session(&mut self, peer_pubkey: &str) -> (res: Session)
        requires
            old(self).wf(),
        ensures
            final(self).wf(),
            final(self).carrier() == old(self).carrier(),
            res@ == begun(res@.id, peer_pubkey@, res@.created_at),
            res@.id.len() == 36,
            final(self)@ == with_new_session(old(self)@, res@.id, res@),
    {
        let session = Session::new(peer_pubkey);
        self.put_session(session.id.as_str(), session.clone());
        session
    }

    /// Puts a new session under an identifier and counts it.
    fn put_session(&mut self, id: &str, session: Session)
        requires
            old(self).wf(),
            session@.id == id@,
            within_ceiling(session@),
        ensures
            final(self).wf(),
            final(self).carrier() == old(self).carrier(),
            final(self)@ == with_new_session(old(self)@, id@, session@),
    {
        proof {
            mapped_put(self.sessions@, |s: Session| s@, id@, session);
        }
        self.sessions.put(id, session);
        Metrics::inc(&mut self.metrics.sessions_created);
        proof {
            put_keeps_own_ids(old(self)@.sessions, id@, session@);
            put_keeps_ceiling(old(self)@.sessions, id@, session@);
        }
        assert(self@ =~= with_new_session(old(self)@, id@, session@));
    }

    /// No two sessions are known under one identifier, each is known under its own,
    /// and each keeps within its ceiling, as the view shows it.
    pub proof fn sessions_are_keyed(&self)
        requires
            self.wf(),
        ensures
            distinct_keys(self@.sessions),
            own_ids(self@.sessions),
            all_within_ceiling(self@.sessions),
    {
        mapped_keys(self.sessions@, |s: Session| s@, ""@);
    }

    /// The session known under an identifier.
    pub fn get_session(&self, session_id: &str) -> (res: Option<Session>)
        requires
            self.wf(),
        ensures
            res is Some <==> has_key(self@.sessions, session_id@),
            res is Some ==> lookup(self@.sessions, session_id@) == Some(res->0@),
            res is Some ==> res->0@.id == session_id@,
            res is Some ==> within_ceiling(res->0@),
    {
        proof {
            mapped_keys(self.sessions@, |s: Session| s@, session_id@);
            self.sessions_are_keyed();
            looked_up_has_its_id(self@.sessions, session_id@);
        }
        match self.sessions.get(session_id) {
            Some(s) => Some(s.clone()),
            None => None,
        }
    }

    /// All sessions.
    pub fn list_sessions(&self) -> (res: Vec<Session>)
        ensures
            res@.len() == self@.sessions.len(),
            forall|i: int|
                0 <= i < res@.len() ==> (#[trigger] res@[i])@ == self@.sessions[i].1,
            self.wf() ==> forall|i: int|
                0 <= i < res@.len() ==> within_ceiling((#[trigger] res@[i])@),
    {
        let mut out: Vec<Session> = Vec::new();
        let mut i: usize = 0;
        while i < self.sessions.len()
            invariant
                0 <= i <= self.sessions@.len(),
                out.len() == i,
                forall|k: int| 0 <= k < i ==> (#[trigger] out@[k])@ == self.sessions@[k].1@,
            decreases self.sessions@.len() - i,
        {
            out.push(self.sessions.value_at(i).clone());
            i = i + 1;
        }
        assert forall|k: int| self.wf() && 0 <= k < out@.len() implies within_ceiling(
            (#[trigger] out@[k])@,
        ) by {
            assert(within_ceiling(self@.sessions[k].1));
        }
        out
    }

    /// Drops the sessions in which no task was seen within `max_age_secs`
    /// seconds, and returns how many there were.
    pub fn evict_idle_sessions(&mut self, max_age_secs: u64) -> (res: usize)
        requires
            old(self).wf(),
        ensures
            final(self).wf(),
            final(self).carrier() == old(self).carrier(),
            exists|now: u64|
                final(self)@ == (NodeState {
                    sessions: #[trigger] active_sessions(old(self)@.sessions, max_age_secs, now),
                    ..old(self)@
                }),
            res == old(self)@.sessions.len() - final(self)@.sessions.len(),
    {
        let now: u64 = now_secs();
        let res: usize = self.evict_idle_sessions_at(max_age_secs, now);
        assert(self@ == (NodeState {
            sessions: active_sessions(old(self)@.sessions, max_age_secs, now),
            ..old(self)@
        }));
        res
    }

    /// Drops the sessions in which no task was seen within `max_age_secs` seconds
    /// before the given time, and returns how many there were.
    pub fn evict_idle_sessions_at(&mut self, max_age_secs: u64, now: u64) -> (res: usize)
        requires
            old(self).wf(),
        ensures
            final(self).wf(),
            final(self).carrier() == old(self).carrier(),
            final(self)@ == (NodeState {
                sessions: active_sessions(old(self)@.sessions, max_age_secs, now),
                ..old(self)@
            }),
            res == old(self)@.sessions.len() - final(self)@.sessions.len(),
    {
        let ghost active = |row: (Seq<char>, SessionView)|
            now <= row.1.last_seen || now - row.1.last_seen <= max_age_secs;
        let ghost all = self@.sessions;
        let before: usize = self.sessions.len();
        let mut i: usize = 0;
        reveal(Seq::filter);
        assert(all.take(0) =~= seq![]);
        assert(all.skip(0) =~= all);
        assert(all.take(0).filter(active) + all.skip(0) =~= all);
        let ghost mut seen: int = 0;
        while i < self.sessions.len()
            invariant
                self.wf(),
                self.carrier() == old(self).carrier(),
                self@ == (NodeState { sessions: self@.sessions, ..old(self)@ }),
                0 <= seen <= all.len(),
                0 <= i <= self@.sessions.len() <= all.len(),
                self@.sessions.len() == self.sessions@.len(),
                active == (|row: (Seq<char>, SessionView)|
                    now <= row.1.last_seen || now - row.1.last_seen <= max_age_secs),
                i == all.take(seen).filter(active).len(),
                self@.sessions == all.take(seen).filter(active) + all.skip(seen),
            decreases all.len() - seen,
        {
            let ghost kept = all.take(seen).filter(active);
            let ghost current = self@.sessions;
            assert(seen < all.len());
            assert(current[i as int] == all[seen]);
            assert(all.take(seen + 1).drop_last() =~= all.take(seen));
            assert(all.take(seen + 1).last() == all[seen]);
            reveal(Seq::filter);
            if now.saturating_sub(self.sessions.value_at(i).last_seen) <= max_age_secs {
                assert(kept.push(all[seen]) + all.skip(seen + 1) =~= current);
                i = i + 1;
            } else {
                self.sessions.remove_at(i);
                assert(self@.sessions =~= current.remove(i as int));
                assert(current.remove(i as int) =~= kept + all.skip(seen + 1));
            }
            proof {
                seen = seen + 1;
            }
        }
        proof {
            if seen < all.len() {
                assert(all.skip(seen).len() > 0);
            }
            assert(all.take(seen) =~= all);
            assert(all.skip(seen) =~= seq![]);
            assert(self@.sessions =~= active_sessions(all, max_age_secs, now));
        }
        before - self.sessions.len()
    }
}

/// The node with an identity for encrypted messages.
pub open spec fn encrypted(st: NodeState, public_key: Seq<char>) -> NodeState {
    NodeState {
        card: CardView {
            intro_bundle: Some((public_key, crate::agent::BUNDLE_VERSION@)),
            ..st.card
        },
        identity: Some(public_key),
        ..st
    }
}

/// The node once the peers that are out of date at the given time are evicted.
pub open spec fn with_live_peers(st: NodeState, now: u64) -> NodeState {
    NodeState { peers: live_rows(st.peers, now), ..st }
}

/// The node with one more session.
pub open spec fn with_new_session(st: NodeState, id: Seq<char>, session: SessionView) -> NodeState {
    NodeState {
        sessions: with_row(st.sessions, id, session),
        metrics: Metrics {
            sessions_created: counted(st.metrics.sessions_created, 1),
            ..st.metrics
        },
        ..st
    }
}

/// Putting a session under its own identifier keeps every session under its own.
proof fn put_keeps_own_ids(
    sessions: Seq<(Seq<char>, SessionView)>,
    id: Seq<char>,
    session: SessionView,
)
    requires
        own_ids(sessions),
        session.id == id,
    ensures
        own_ids(with_row(sessions, id, session)),
{
    let after = with_row(sessions, id, session);
    assert forall|i: int| 0 <= i < after.len() implies (#[trigger] after[i]).1.id == after[i].0 by {
        if i < sessions.len() {
            assert(sessions[i].1.id == sessions[i].0);
        }
    }
}

/// Putting a session that keeps within its ceiling leaves all within theirs.
proof fn put_keeps_ceiling(
    sessions: Seq<(Seq<char>, SessionView)>,
    id: Seq<char>,
    session: SessionView,
)
    requires
        all_within_ceiling(sessions),
        within_ceiling(session),
    ensures
        all_within_ceiling(with_row(sessions, id, session)),
{
    let after = with_row(sessions, id, session);
    assert forall|i: int| 0 <= i < after.len() implies within_ceiling((#[trigger] after[i]).1) by {
        if i < sessions.len() {
            assert(within_ceiling(sessions[i].1));
        }
    }
}

/// A session that is found under an identifier has that identifier.
pub proof fn looked_up_has_its_id(sessions: Seq<(Seq<char>, SessionView)>, id: Seq<char>)
    requires
        own_ids(sessions),
    ensures
        lookup(sessions, id) is Some ==> lookup(sessions, id)->0.id == id,
{
}

/// A session that was created is found under its identifier, as it was created;
/// the other sessions are as they were.
pub proof fn a_created_session_is_found(st: NodeState, id: Seq<char>, session: SessionView)
    requires
        distinct_keys(st.sessions),
    ensures
        lookup(with_new_session(st, id, session).sessions, id) == Some(session),
        distinct_keys(with_new_session(st, id, session).sessions),
        forall|other: Seq<char>|
            other != id ==> #[trigger] lookup(with_new_session(st, id, session).sessions, other)
                == lookup(st.sessions, other),
{
    crate::table::put_then_look(st.sessions, id, session);
}

/// The sessions after tasks were noted in one of them, each at its time.
pub open spec fn after_session_tasks(
    sessions: Seq<(Seq<char>, SessionView)>,
    id: Seq<char>,
    seen: Seq<(Seq<char>, u64)>,
) -> Seq<(Seq<char>, SessionView)>
    decreases seen.len(),
{
    if seen.len() == 0 {
        sessions
    } else {
        with_session_task(
            after_session_tasks(sessions, id, seen.drop_last()),
            id,
            seen.last().0,
            seen.last().1,
        )
    }
}

/// However many tasks are sent in a session, it is found under its identifier with
/// the last of them up to its ceiling, as long as their identifiers differ; the
/// other sessions are as they were.
pub proof fn a_session_keeps_its_last_tasks(
    sessions: Seq<(Seq<char>, SessionView)>,
    id: Seq<char>,
    session: SessionView,
    seen: Seq<(Seq<char>, u64)>,
)
    requires
        distinct_keys(sessions),
        lookup(sessions, id) == Some(session),
        within_ceiling(session),
        (session.task_ids + seen_ids(seen)).no_duplicates(),
    ensures
        distinct_keys(after_session_tasks(sessions, id, seen)),
        lookup(after_session_tasks(sessions, id, seen), id) == Some(
            SessionView {
                task_ids: last_items(
                    session.task_ids + seen_ids(seen),
                    Session::MAX_TASK_IDS as nat,
                ),
                last_seen: if seen.len() == 0 {
                    session.last_seen
                } else {
                    seen.last().1
                },
                ..session
            },
        ),
        forall|other: Seq<char>|
            other != id ==> #[trigger] lookup(after_session_tasks(sessions, id, seen), other)
                == lookup(sessions, other),
{
    noted_in_turn(sessions, id, session, seen);
    the_last_tasks_are_kept(session, seen);
}

proof fn noted_in_turn(
    sessions: Seq<(Seq<char>, SessionView)>,
    id: Seq<char>,
    session: SessionView,
    seen: Seq<(Seq<char>, u64)>,
)
    requires
        distinct_keys(sessions),
        lookup(sessions, id) == Some(session),
    ensures
        distinct_keys(after_session_tasks(sessions, id, seen)),
        lookup(after_session_tasks(sessions, id, seen), id) == Some(with_tasks(session, seen)),
        forall|other: Seq<char>|
            other != id ==> #[trigger] lookup(after_session_tasks(sessions, id, seen), other)
                == lookup(sessions, other),
    decreases seen.len(),
{
    if seen.len() > 0 {
        let head = seen.drop_last();
        noted_in_turn(sessions, id, session, head);
        crate::table::put_then_look(
            after_session_tasks(sessions, id, head),
            id,
            with_tasks(session, seen),
        );
    }
}

/// Whatever becomes of the sessions, each stays known under its own identifier:
/// when one begins, when a task is noted in one, and when idle ones are dropped.
pub proof fn sessions_keep_their_ids(
    sessions: Seq<(Seq<char>, SessionView)>,
    id: Seq<char>,
    peer: Seq<char>,
    task_id: Seq<char>,
    max_age: u64,
    now: u64,
)
    requires
        own_ids(sessions),
    ensures
        own_ids(with_row(sessions, id, begun(id, peer, now))),
        own_ids(with_session_task(sessions, id, task_id, now)),
        own_ids(active_sessions(sessions, max_age, now)),
{
    put_keeps_own_ids(sessions, id, begun(id, peer, now));
    looked_up_has_its_id(sessions, id);
    if let Some(s) = lookup(sessions, id) {
        put_keeps_own_ids(sessions, id, with_task(s, task_id, now));
    }
    dropping_keeps_own_ids(sessions, max_age, now);
}

proof fn dropping_keeps_own_ids(sessions: Seq<(Seq<char>, SessionView)>, max_age: u64, now: u64)
    requires
        own_ids(sessions),
    ensures
        own_ids(active_sessions(sessions, max_age, now)),
    decreases sessions.len(),
{
    reveal(Seq::filter);
    if sessions.len() > 0 {
        let head = sessions.drop_last();
        assert forall|i: int| 0 <= i < head.len() implies (#[trigger] head[i]).1.id == head[i].0 by {
            assert(sessions[i].1.id == sessions[i].0);
        }
        dropping_keeps_own_ids(head, max_age, now);
        assert(sessions.last() == sessions[sessions.len() - 1]);
    }
}

/// The load that a node reports.
pub open spec fn load_of(st: NodeState) -> LoadStatus {
    LoadStatus {
        bucket: bucket_of(low32(st.in_flight), st.max_concurrent),
        queue_depth: low32(st.in_flight),
        max_concurrent: st.max_concurrent,
        avg_latency_ms: 0,
    }
}

/// A node is at its ceiling exactly when it reports itself full.
pub proof fn full_is_at_capacity(st: NodeState)
    ensures
        load_of(st).bucket == LoadBucket::Full <==> low32(st.in_flight) >= st.max_concurrent,
{
}

/// The same key makes the same public identity and channel, every time.
pub proof fn same_key_same_identity(
    a: CardView,
    b: CardView,
    key: Seq<u8>,
    config: ChannelConfig,
    clock_a: u64,
    clock_b: u64,
)
    ensures
        fresh_node(a, key, config, clock_a).channel.sender_id == public_key_of(key),
        fresh_node(a, key, config, clock_a).channel.sender_id == fresh_node(
            b,
            key,
            config,
            clock_b,
        ).channel.sender_id,
        fresh_node(a, key, config, clock_a).channel.channel_id == fresh_node(
            b,
            key,
            config,
            clock_b,
        ).channel.channel_id,
{
}

/// A node with an identity offers its key: whoever has an identity too encrypts for it
/// under that key, and the rest of its card stays.
pub proof fn an_identity_is_offered(st: NodeState, sender: NodeState, key: Seq<char>)
    requires
        sender.identity is Some,
    ensures
        crate::node::offload::encryption_key(sender, Some(encrypted(st, key).card)) == Some(key),
        encrypted(st, key).identity == Some(key),
        encrypted(st, key).card.public_key == st.card.public_key,
        encrypted(st, key).card.name == st.card.name,
        encrypted(st, key).card.capabilities == st.card.capabilities,
        encrypted(st, key).channel == st.channel,
        encrypted(st, key).trust == st.trust,
{
}

/// A fresh node is who its key says, knows nobody, has nothing under way, trusts
/// everybody and asks for nothing.
pub proof fn a_fresh_node_knows_nothing(
    card: CardView,
    key: Seq<u8>,
    config: ChannelConfig,
    clock: u64,
    peer: Seq<char>,
)
    ensures
        ({
            let st = fresh_node(card, key, config, clock);
            &&& st.card == card
            &&& st.key == key
            &&& st.channel.sender_id == public_key_of(key)
            &&& st.channel.config == config
            &&& st.channel.clock == clock
            &&& st.channel.incoming.len() == 0 && st.channel.outgoing.len() == 0
            &&& st.channel.history.len() == 0 && st.channel.acks.len() == 0
            &&& st.sessions.len() == 0 && st.peers.len() == 0 && st.seen_payments.len() == 0
            &&& st.in_flight == 0 && st.max_concurrent == 1
            &&& st.payment is None && st.offload is None && st.retry is None
            &&& trusts(st.trust, peer)
            &&& forall|id: Seq<char>| !#[trigger] crate::sds::bloom::holds(st.channel.filter, id)
        }),
{
    let st = fresh_node(card, key, config, clock);
    assert forall|id: Seq<char>| !#[trigger] crate::sds::bloom::holds(st.channel.filter, id) by {
        crate::sds::bloom::empty_filter_holds_nothing(id);
    }
}

/// A plain card shows the agent as it was named, under its key, and offers no key for
/// encryption.
pub proof fn a_plain_card_shows_the_agent(
    name: Seq<char>,
    description: Seq<char>,
    capabilities: Seq<Seq<char>>,
    public_key: Seq<char>,
)
    ensures
        plain_card(name, description, capabilities, public_key).name == name,
        plain_card(name, description, capabilities, public_key).description == description,
        plain_card(name, description, capabilities, public_key).capabilities == capabilities,
        plain_card(name, description, capabilities, public_key).public_key == public_key,
        plain_card(name, description, capabilities, public_key).intro_bundle is None,
        channel_name(public_key) == "node-"@ + public_key.take(8),
{
}

/// Evicting peers changes nothing about a node but its peers, and of those only that the
/// ones past their time are gone.
pub proof fn eviction_touches_only_the_peers(
    st: NodeState,
    now: u64,
    row: (Seq<char>, PeerView),
)
    ensures
        with_live_peers(st, now) == (NodeState { peers: with_live_peers(st, now).peers, ..st }),
        with_live_peers(st, now).peers.contains(row) <==> st.peers.contains(row)
            && row.1.ttl_secs > 0 && now <= row.1.last_seen + row.1.ttl_secs,
{
    filtered_members(
        st.peers,
        |row: (Seq<char>, PeerView)| !expired_at(row.1, now),
    );
}

} // verus!
