//! Events reported while agents and graphs run.

use vstd::prelude::*;
use crate::json::Json;

verus! {

#[derive(Debug, PartialEq, Clone)]
pub enum CoreEvent {
    AgentStarted { agent_id: u128, agent_name: String, graph_name: String },
    AgentEnded { agent_id: u128, agent_name: String, status: String },
    GraphStarted { run_id: u128, graph_name: String },
    GraphEnded { run_id: u128, graph_name: String, status: String },
    NodeStarted { run_id: u128, node_id: String },
    NodeEnded { run_id: u128, node_id: String, emitted_messages: usize },
    MessageEmitted { run_id: u128, node_id: String, message_id: u128 },
    HookEmitted { name: String, data: Json },
    Error { run_id: Option<u128>, message: String, recoverable: bool },
}

/// An ordered log of events.
#[derive(Debug)]
pub struct EventLog {
    events: Vec<CoreEvent>,
}

impl EventLog {
    pub closed spec fn view(&self) -> Seq<CoreEvent> {
        self.events@
    }

    pub fn new() -> (r: EventLog)
        ensures
            r.view() == Seq::<CoreEvent>::empty(),
    {
        EventLog { events: Vec::new() }
    }

    pub fn push(&mut self, event: CoreEvent)
        ensures
            final(self).view() == old(self).view().push(event),
    {
        self.events.push(event);
    }

    pub fn extend(&mut self, events: Vec<CoreEvent>)
        ensures
            final(self).view() == old(self).view() + events@,
    {
        let mut events = events;
        self.events.append(&mut events);
    }

    pub fn events(&self) -> (r: &Vec<CoreEvent>)
        ensures
            r@ == self.view(),
    {
        &self.events
    }

    pub fn into_events(self) -> (r: Vec<CoreEvent>)
        ensures
            r@ == self.view(),
    {
        self.events
    }
}

} // verus!
