//! What the transports share: errors and the table of subscriptions.

use vstd::prelude::*;
use crate::table::{has_key, lookup, with_row, without_row, TextTable};
use crate::text::join2;

pub mod delivery_module_transport;
pub mod logos_delivery;

verus! {

/// Errors that can occur during transport operations.
#[derive(Debug)]
pub enum TransportError {
    /// An error from the underlying transport backend.
    Transport(String),
    /// A JSON serialization or deserialization error.
    Serialization(String),
    /// A catch-all error with a freeform message.
    Other(String),
}

impl TransportError {
    /// The message of the error.
    pub open spec fn text(&self) -> Seq<char> {
        match self {
            TransportError::Transport(t) => t@,
            TransportError::Serialization(t) => "serialization error: "@ + t@,
            TransportError::Other(t) => t@,
        }
    }

    /// An error from the backend with the given message.
    pub open spec fn is_transport(&self, text: Seq<char>) -> bool {
        *self matches TransportError::Transport(t) && t@ == text
    }

    /// The message of the error.
    pub fn to_string(&self) -> (res: String)
        ensures
            res@ == self.text(),
    {
        match self {
            TransportError::Transport(t) => t.clone(),
            TransportError::Serialization(t) => join2("serialization error: ", t.as_str()),
            TransportError::Other(t) => t.clone(),
        }
    }
}

/// Who listens on which topic: at most one subscriber per topic, the last one.
#[derive(Debug)]
pub struct Subscriptions<S> {
    table: TextTable<S>,
}

impl<S> View for Subscriptions<S> {
    type V = Seq<(Seq<char>, S)>;

    closed spec fn view(&self) -> Seq<(Seq<char>, S)> {
        self.table@
    }
}

impl<S> Subscriptions<S> {
    /// No topic has two subscribers.
    pub open spec fn wf(&self) -> bool {
        crate::table::distinct_keys(self@)
    }

    /// Nobody listens.
    pub fn new() -> (res: Subscriptions<S>)
        ensures
            res.wf(),
            res@ == Seq::<(Seq<char>, S)>::empty(),
    {
        Subscriptions { table: TextTable::new() }
    }

    /// Subscribes; an earlier subscriber of the topic is replaced.
    pub fn insert(&mut self, topic: &str, subscriber: S)
        requires
            old(self).wf(),
        ensures
            final(self).wf(),
            final(self)@ == with_row(old(self)@, topic@, subscriber),
    {
        self.table.put(topic, subscriber)
    }

    /// Ends a subscription.
    pub fn remove(&mut self, topic: &str)
        requires
            old(self).wf(),
        ensures
            final(self).wf(),
            final(self)@ == without_row(old(self)@, topic@),
    {
        let _ = self.table.remove(topic);
    }

    /// The subscriber of a topic.
    pub fn get(&self, topic: &str) -> (res: Option<&S>)
        requires
            self.wf(),
        ensures
            res is Some <==> has_key(self@, topic@),
            res matches Some(s) ==> lookup(self@, topic@) == Some(*s),
    {
        self.table.get(topic)
    }
}

} // verus!
