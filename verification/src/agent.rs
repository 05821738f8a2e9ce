//! Agents, their cards, the tasks they exchange and the envelopes round them.

use vstd::prelude::*;
use crate::text::{
    clone_opt_text, clone_texts, join3, opt_text, texts,
};
use crate::unique::fresh_id;

verus! {

/// The topic on which agents announce their cards.
pub const DISCOVERY: &'static str = "/lmao/1/discovery/proto";

/// The topic on which agents announce their presence.
pub const PRESENCE: &'static str = "/lmao/1/presence/proto";

/// The topic on which an agent receives tasks.
pub open spec fn task_topic_of(pubkey: Seq<char>) -> Seq<char> {
    "/lmao/1/task-"@ + pubkey + "/proto"@
}

/// The topic on which an agent receives tasks.
pub fn task_topic(pubkey: &str) -> (res: String)
    ensures
        res@ == task_topic_of(pubkey@),
{
    join3("/lmao/1/task-", pubkey, "/proto")
}

/// What a peer needs to open an encrypted session.
#[derive(Debug)]
pub struct IntroBundle {
    pub agent_pubkey: String,
    pub version: String,
}

/// The version of the bundles that this library makes.
pub const BUNDLE_VERSION: &'static str = "1.0";

impl IntroBundle {
    /// A bundle for an encryption key.
    pub fn new(agent_pubkey: &str) -> (res: IntroBundle)
        ensures
            res.agent_pubkey@ == agent_pubkey@,
            res.version@ == BUNDLE_VERSION@,
    {
        IntroBundle { agent_pubkey: agent_pubkey.to_owned(), version: BUNDLE_VERSION.to_owned() }
    }
}

impl Clone for IntroBundle {
    fn clone(&self) -> (res: IntroBundle)
        ensures
            res == *self,
    {
        IntroBundle { agent_pubkey: self.agent_pubkey.clone(), version: self.version.clone() }
    }
}

/// An agent's public identity.
#[derive(Debug)]
pub struct AgentCard {
    pub name: String,
    pub description: String,
    pub version: String,
    pub capabilities: Vec<String>,
    /// The compressed public key in hexadecimal.
    pub public_key: String,
    pub intro_bundle: Option<IntroBundle>,
}

/// What an [`AgentCard`] says. Of the bundle, its key and its version.
#[verifier::ext_equal]
pub struct CardView {
    pub name: Seq<char>,
    pub description: Seq<char>,
    pub version: Seq<char>,
    pub capabilities: Seq<Seq<char>>,
    pub public_key: Seq<char>,
    pub intro_bundle: Option<(Seq<char>, Seq<char>)>,
}

impl View for AgentCard {
    type V = CardView;

    open spec fn view(&self) -> CardView {
        CardView {
            name: self.name@,
            description: self.description@,
            version: self.version@,
            capabilities: texts(self.capabilities@),
            public_key: self.public_key@,
            intro_bundle: match self.intro_bundle {
                Some(b) => Some((b.agent_pubkey@, b.version@)),
                None => None,
            },
        }
    }
}

impl Clone for AgentCard {
    fn clone(&self) -> (res: AgentCard)
        ensures
            res@ == self@,
    {
        AgentCard {
            name: self.name.clone(),
            description: self.description.clone(),
            version: self.version.clone(),
            capabilities: clone_texts(&self.capabilities),
            public_key: self.public_key.clone(),
            intro_bundle: match &self.intro_bundle {
                Some(b) => Some(b.clone()),
                None => None,
            },
        }
    }
}

/// What cards say.
pub open spec fn cards(list: Seq<AgentCard>) -> Seq<CardView> {
    Seq::new(list.len(), |i: int| list[i]@)
}

/// The state of a task.
#[derive(Debug, Clone, Copy, PartialEq, Eq, Structural)]
pub enum TaskState {
    Submitted,
    Working,
    InputRequired,
    Completed,
    Failed,
    Cancelled,
}

/// A message within a task: who speaks, and pieces of text.
#[derive(Debug)]
pub struct Message {
    pub role: String,
    pub parts: Vec<String>,
}

/// What a [`Message`] says.
#[verifier::ext_equal]
pub struct MessageView {
    pub role: Seq<char>,
    pub parts: Seq<Seq<char>>,
}

impl View for Message {
    type V = MessageView;

    open spec fn view(&self) -> MessageView {
        MessageView { role: self.role@, parts: texts(self.parts@) }
    }
}

impl Clone for Message {
    fn clone(&self) -> (res: Message)
        ensures
            res@ == self@,
    {
        Message { role: self.role.clone(), parts: clone_texts(&self.parts) }
    }
}

/// A message with one piece of text.
pub open spec fn one_part(role: Seq<char>, text: Seq<char>) -> MessageView {
    MessageView { role, parts: seq![text] }
}

fn text_message(role: &str, text: &str) -> (res: Message)
    ensures
        res@ == one_part(role@, text@),
{
    let mut parts: Vec<String> = Vec::new();
    parts.push(text.to_owned());
    assert(texts(parts@) =~= seq![text@]);
    Message { role: role.to_owned(), parts }
}

/// The first piece of text of a message.
pub open spec fn first_part(m: MessageView) -> Option<Seq<char>> {
    if m.parts.len() > 0 {
        Some(m.parts[0])
    } else {
        None
    }
}

/// A task that one agent gives another, and in a response its result.
#[derive(Debug)]
pub struct Task {
    pub id: String,
    pub from: String,
    pub to: String,
    pub state: TaskState,
    pub message: Message,
    pub result: Option<Message>,
    /// Where the content is stored, if it is not in the task itself.
    pub payload_cid: Option<String>,
    pub session_id: Option<String>,
    pub payment_tx: Option<String>,
    pub payment_amount: Option<u64>,
}

/// What a [`Task`] says.
#[verifier::ext_equal]
pub struct TaskView {
    pub id: Seq<char>,
    pub from: Seq<char>,
    pub to: Seq<char>,
    pub state: TaskState,
    pub message: MessageView,
    pub result: Option<MessageView>,
    pub payload_cid: Option<Seq<char>>,
    pub session_id: Option<Seq<char>>,
    pub payment_tx: Option<Seq<char>>,
    pub payment_amount: Option<u64>,
}

impl View for Task {
    type V = TaskView;

    open spec fn view(&self) -> TaskView {
        TaskView {
            id: self.id@,
            from: self.from@,
            to: self.to@,
            state: self.state,
            message: self.message@,
            result: match self.result {
                Some(m) => Some(m@),
                None => None,
            },
            payload_cid: opt_text(self.payload_cid),
            session_id: opt_text(self.session_id),
            payment_tx: opt_text(self.payment_tx),
            payment_amount: self.payment_amount,
        }
    }
}

/// What tasks say.
pub open spec fn tasks(list: Seq<Task>) -> Seq<TaskView> {
    Seq::new(list.len(), |i: int| list[i]@)
}

impl Clone for Task {
    fn clone(&self) -> (res: Task)
        ensures
            res@ == self@,
    {
        Task {
            id: self.id.clone(),
            from: self.from.clone(),
            to: self.to.clone(),
            state: self.state,
            message: self.message.clone(),
            result: match &self.result {
                Some(m) => Some(m.clone()),
                None => None,
            },
            payload_cid: clone_opt_text(&self.payload_cid),
            session_id: clone_opt_text(&self.session_id),
            payment_tx: clone_opt_text(&self.payment_tx),
            payment_amount: self.payment_amount,
        }
    }
}

/// A task that was just given, with one piece of text from the user.
pub open spec fn given(
    id: Seq<char>,
    from: Seq<char>,
    to: Seq<char>,
    text: Seq<char>,
    session_id: Option<Seq<char>>,
) -> TaskView {
    TaskView {
        id,
        from,
        to,
        state: TaskState::Submitted,
        message: one_part("user"@, text),
        result: None,
        payload_cid: None,
        session_id,
        payment_tx: None,
        payment_amount: None,
    }
}

/// The answer to a task: the same task sent back, with a result.
pub open spec fn answer(task: TaskView, text: Seq<char>, state: TaskState) -> TaskView {
    TaskView {
        id: task.id,
        from: task.to,
        to: task.from,
        state,
        message: task.message,
        result: Some(one_part("agent"@, text)),
        payload_cid: None,
        session_id: task.session_id,
        payment_tx: None,
        payment_amount: None,
    }
}

impl Task {
    /// A task with a given identifier.
    pub fn with_id(id: String, from: &str, to: &str, text: &str, session_id: Option<String>) -> (res:
        Task)
        ensures
            res@ == given(id@, from@, to@, text@, opt_text(session_id)),
    {
        Task {
            id,
            from: from.to_owned(),
            to: to.to_owned(),
            state: TaskState::Submitted,
            message: text_message("user", text),
            result: None,
            payload_cid: None,
            session_id,
            payment_tx: None,
            payment_amount: None,
        }
    }

    /// A task with a fresh identifier.
    pub fn new(from: &str, to: &str, text: &str) -> (res: Task)
        ensures
            res@ == given(res@.id, from@, to@, text@, None),
            res@.id.len() == 36,
    {
        Task::with_id(fresh_id(), from, to, text, None)
    }

    /// A task with a fresh identifier that belongs to a session.
    pub fn new_in_session(from: &str, to: &str, text: &str, session_id: &str) -> (res: Task)
        ensures
            res@ == given(res@.id, from@, to@, text@, Some(session_id@)),
            res@.id.len() == 36,
    {
        Task::with_id(fresh_id(), from, to, text, Some(session_id.to_owned()))
    }

    /// The first piece of text of the task.
    pub fn text(&self) -> (res: Option<&str>)
        ensures
            res is Some <==> first_part(self@.message) is Some,
            res matches Some(t) ==> first_part(self@.message) == Some(t@),
    {
        if self.message.parts.len() > 0 {
            Some(self.message.parts[0].as_str())
        } else {
            None
        }
    }

    /// The first piece of text of the result.
    pub fn result_text(&self) -> (res: Option<&str>)
        ensures
            res is Some <==> self@.result is Some && first_part(self@.result->0) is Some,
            res matches Some(t) ==> first_part(self@.result->0) == Some(t@),
    {
        match &self.result {
            Some(m) => {
                if m.parts.len() > 0 {
                    Some(m.parts[0].as_str())
                } else {
                    None
                }
            },
            None => None,
        }
    }

    /// The answer to the task: completed, sent back to its sender.
    pub fn respond(&self, result_text: &str) -> (res: Task)
        ensures
            res@ == answer(self@, result_text@, TaskState::Completed),
    {
        self.answered(result_text, TaskState::Completed)
    }

    /// The answer to the task where it failed.
    pub fn respond_failed(&self, error_text: &str) -> (res: Task)
        ensures
            res@ == answer(self@, error_text@, TaskState::Failed),
    {
        self.answered(error_text, TaskState::Failed)
    }

    fn answered(&self, text: &str, state: TaskState) -> (res: Task)
        ensures
            res@ == answer(self@, text@, state),
    {
        Task {
            id: self.id.clone(),
            from: self.to.clone(),
            to: self.from.clone(),
            state,
            message: self.message.clone(),
            result: Some(text_message("agent", text)),
            payload_cid: None,
            session_id: clone_opt_text(&self.session_id),
            payment_tx: None,
            payment_amount: None,
        }
    }
}

/// A payload that only the holder of the right key can read.
#[derive(Debug)]
pub struct EncryptedPayload {
    pub nonce: String,
    pub ciphertext: String,
}

impl Clone for EncryptedPayload {
    fn clone(&self) -> (res: EncryptedPayload)
        ensures
            res == *self,
    {
        EncryptedPayload { nonce: self.nonce.clone(), ciphertext: self.ciphertext.clone() }
    }
}

/// That an agent is there, what it can do and for how long this holds.
#[derive(Debug)]
pub struct PresenceAnnouncement {
    pub agent_id: String,
    pub name: String,
    pub capabilities: Vec<String>,
    pub waku_topic: String,
    pub ttl_secs: u64,
    pub signature: Option<String>,
}

/// What a [`PresenceAnnouncement`] says.
#[verifier::ext_equal]
pub struct AnnouncementView {
    pub agent_id: Seq<char>,
    pub name: Seq<char>,
    pub capabilities: Seq<Seq<char>>,
    pub waku_topic: Seq<char>,
    pub ttl_secs: u64,
    pub signature: Option<Seq<char>>,
}

impl View for PresenceAnnouncement {
    type V = AnnouncementView;

    open spec fn view(&self) -> AnnouncementView {
        AnnouncementView {
            agent_id: self.agent_id@,
            name: self.name@,
            capabilities: texts(self.capabilities@),
            waku_topic: self.waku_topic@,
            ttl_secs: self.ttl_secs,
            signature: opt_text(self.signature),
        }
    }
}

/// What travels on the topics.
#[derive(Debug)]
pub enum A2AEnvelope {
    AgentCard(AgentCard),
    Task(Task),
    EncryptedTask { encrypted: EncryptedPayload, sender_pubkey: String },
    Ack { message_id: String },
    Presence(PresenceAnnouncement),
}

/// What an [`A2AEnvelope`] says.
#[verifier::ext_equal]
pub enum EnvelopeView {
    AgentCard(CardView),
    Task(TaskView),
    EncryptedTask { nonce: Seq<char>, ciphertext: Seq<char>, sender_pubkey: Seq<char> },
    Ack(Seq<char>),
    Presence(AnnouncementView),
}

impl View for A2AEnvelope {
    type V = EnvelopeView;

    open spec fn view(&self) -> EnvelopeView {
        match self {
            A2AEnvelope::AgentCard(card) => EnvelopeView::AgentCard(card@),
            A2AEnvelope::Task(task) => EnvelopeView::Task(task@),
            A2AEnvelope::EncryptedTask { encrypted, sender_pubkey } => EnvelopeView::EncryptedTask {
                nonce: encrypted.nonce@,
                ciphertext: encrypted.ciphertext@,
                sender_pubkey: sender_pubkey@,
            },
            A2AEnvelope::Ack { message_id } => EnvelopeView::Ack(message_id@),
            A2AEnvelope::Presence(ann) => EnvelopeView::Presence(ann@),
        }
    }
}

/// What an optional envelope says.
pub open spec fn opt_envelope(envelope: Option<A2AEnvelope>) -> Option<EnvelopeView> {
    match envelope {
        Some(e) => Some(e@),
        None => None,
    }
}

/// An answer goes back to the sender under the same identifier and in the same
/// session, and answering it in turn goes to the one who answered.
pub proof fn answers_go_back(task: TaskView, text: Seq<char>, state: TaskState)
    ensures
        answer(task, text, state).id == task.id,
        answer(task, text, state).session_id == task.session_id,
        answer(task, text, state).to == task.from,
        answer(answer(task, text, state), text, state).to == task.to,
        first_part(answer(task, text, state).result->0) == Some(text),
{
}

/// No two agents share a topic.
pub proof fn agents_have_topics_of_their_own(a: Seq<char>, b: Seq<char>)
    ensures
        task_topic_of(a) == task_topic_of(b) <==> a == b,
        task_topic_of(a) == "/lmao/1/task-"@ + a + "/proto"@,
{
    if task_topic_of(a) == task_topic_of(b) {
        let n = "/lmao/1/task-"@.len() as int;
        let m = "/proto"@.len() as int;
        assert(task_topic_of(a).len() == n + a.len() + m);
        assert(task_topic_of(b).len() == n + b.len() + m);
        assert(task_topic_of(a).subrange(n, n + a.len()) =~= a);
        assert(task_topic_of(b).subrange(n, n + b.len()) =~= b);
    }
}

/// The text of a message is its first piece, and there is none exactly where the
/// message has no pieces.
pub proof fn the_first_piece_is_the_text(m: MessageView)
    ensures
        m.parts.len() == 0 ==> first_part(m) is None,
        m.parts.len() > 0 ==> first_part(m) == Some(m.parts[0]),
{
}

} // verus!
