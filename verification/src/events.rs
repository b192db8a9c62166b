//! Event routing: a registry of components with installed handlers, routing
//! decisions by component id, and event validation. The handler capability
//! itself is invoked by the embedding host; the router decides whether a
//! handler exists to route to.
use vstd::prelude::*;
use vstd::string::*;
use crate::smap::StrMap;
use crate::strutil::{check_event_name, valid_event_name};
use crate::types::{ClientEvent, EventRouterStats, LiveTSError};

verus! {

/// Routes client events to the components that registered a handler.
pub struct EventRouter {
    handlers: StrMap<bool>,
}

impl EventRouter {
    /// The component ids with a registered handler.
    pub closed spec fn handler_ids(&self) -> Set<Seq<char>> {
        self.handlers@.dom()
    }

    pub closed spec fn stores_wf(&self) -> bool {
        self.handlers.wf()
    }

    pub fn new() -> (r: Self)
        ensures
            r.stores_wf(),
            r.handler_ids() == Set::<Seq<char>>::empty(),
    {
        let r = EventRouter { handlers: StrMap::new() };
        proof {
            assert(r.handler_ids() =~= Set::<Seq<char>>::empty());
        }
        r
    }

    /// Registers a handler for the component. The handler capability itself
    /// is kept by the embedding host; the router records that one exists.
    pub fn register_handler(&mut self, component_id: String) -> (r: Result<(), LiveTSError>)
        requires
            old(self).stores_wf(),
        ensures
            final(self).stores_wf(),
            r is Ok,
            final(self).handler_ids() == old(self).handler_ids().insert(component_id@),
    {
        self.handlers.insert(component_id.as_str(), true);
        proof {
            assert(self.handler_ids() =~= old(self).handler_ids().insert(component_id@));
        }
        Ok(())
    }

    /// Removes the component's handler registration.
    pub fn unregister_handler(&mut self, component_id: &str) -> (r: Result<(), LiveTSError>)
        requires
            old(self).stores_wf(),
        ensures
            final(self).stores_wf(),
            r is Ok,
            final(self).handler_ids() == old(self).handler_ids().remove(component_id@),
    {
        let _ = self.handlers.remove(component_id);
        proof {
            assert(self.handler_ids() =~= old(self).handler_ids().remove(component_id@));
        }
        Ok(())
    }

    /// Routes an event: succeeds exactly when the component has a handler;
    /// the invocation itself is carried out by the host.
    pub fn route_event(&self, component_id: &str, event: ClientEvent) -> (r: Result<
        (),
        LiveTSError,
    >)
        requires
            self.stores_wf(),
        ensures
            r is Ok <==> self.handler_ids().contains(component_id@),
            match r {
                Ok(_) => true,
                Err(e) => e is ComponentNotFound,
            },
    {
        if self.handlers.contains_key(component_id) {
            Ok(())
        } else {
            Err(LiveTSError::ComponentNotFound(component_id.to_owned()))
        }
    }

    /// The number of registered handlers.
    pub fn handler_count(&self) -> (n: usize)
        requires
            self.stores_wf(),
        ensures
            n == self.handler_ids().len(),
    {
        self.handlers.len()
    }

    pub fn has_handler(&self, component_id: &str) -> (r: bool)
        ensures
            r == self.handler_ids().contains(component_id@),
    {
        self.handlers.contains_key(component_id)
    }

    /// Validates an incoming client event, applying the whole post-decode
    /// rule set: the component id and event name must be nonempty, the event
    /// name must hold only alphanumerics, underscores and hyphens, and the
    /// component id must be at least eight characters long.
    pub fn validate_event(&self, event: &ClientEvent) -> (r: Result<(), LiveTSError>)
        ensures
            r is Ok <==> (event.component_id@.len() >= 8 && event.event_name@.len() > 0
                && valid_event_name(event.event_name@)),
            match r {
                Ok(_) => true,
                Err(e) => e is EventRoutingError,
            },
    {
        if event.component_id.as_str().unicode_len() == 0 {
            return Err(LiveTSError::EventRoutingError("Component ID cannot be empty".to_owned()));
        }
        if event.event_name.as_str().unicode_len() == 0 {
            return Err(LiveTSError::EventRoutingError("Event name cannot be empty".to_owned()));
        }
        if !check_event_name(event.event_name.as_str()) {
            return Err(
                LiveTSError::EventRoutingError("Event name contains invalid characters".to_owned()),
            );
        }
        if event.component_id.as_str().unicode_len() < 8 {
            return Err(LiveTSError::EventRoutingError("Component ID too short".to_owned()));
        }
        Ok(())
    }

    /// Routes a batch of events, one routing outcome per event, in order.
    pub fn process_event_batch(&self, events: Vec<ClientEvent>) -> (r: Result<
        Vec<Result<(), LiveTSError>>,
        LiveTSError,
    >)
        requires
            self.stores_wf(),
        ensures
            match r {
                Ok(results) => results@.len() == events@.len() && (forall|i: int|
                    0 <= i < results@.len() ==> ((#[trigger] results@[i]) is Ok
                        <==> self.handler_ids().contains(events@[i].component_id@))) && (forall|
                    i: int,
                |
                    0 <= i < results@.len() ==> (match #[trigger] results@[i] {
                        Ok(_) => true,
                        Err(e) => e is ComponentNotFound,
                    })),
                Err(_) => false,
            },
    {
        let ghost orig = events@;
        let mut results: Vec<Result<(), LiveTSError>> = Vec::new();
        let mut rest = events;
        while rest.len() > 0
            invariant
                self.stores_wf(),
                results@.len() + rest@.len() == orig.len(),
                forall|m: int|
                    0 <= m < rest@.len() ==> (#[trigger] rest@[m]) == orig[results@.len() + m],
                forall|i: int|
                    0 <= i < results@.len() ==> ((#[trigger] results@[i]) is Ok
                        <==> self.handler_ids().contains(orig[i].component_id@)),
                forall|i: int|
                    0 <= i < results@.len() ==> (match #[trigger] results@[i] {
                        Ok(_) => true,
                        Err(e) => e is ComponentNotFound,
                    }),
            decreases rest@.len(),
        {
            let event = rest.remove(0);
            let component_id = event.component_id.clone();
            let outcome = self.route_event(component_id.as_str(), event);
            results.push(outcome);
        }
        Ok(results)
    }

    /// Statistics about event processing.
    pub fn get_stats(&self) -> (r: EventRouterStats)
        requires
            self.stores_wf(),
        ensures
            r.registered_handlers == self.handler_ids().len(),
    {
        EventRouterStats { registered_handlers: self.handler_count() }
    }
}

impl Default for EventRouter {
    fn default() -> (r: Self)
        ensures
            r.stores_wf(),
            r.handler_ids() == Set::<Seq<char>>::empty(),
    {
        EventRouter::new()
    }
}

} // verus!
