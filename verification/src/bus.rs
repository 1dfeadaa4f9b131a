//! The update bus: fan-out notification of cache changes, each tagged with
//! its origin.
//!
//! Fan-out, per-subscriber buffering and the lagged signal come from
//! tokio's broadcast channel and are trusted; what the engine has emitted
//! is named, and each emission's effect on that history is stated.

use vstd::prelude::*;

use crate::value::{Value, ValueView};

verus! {

/// A change observed on the bus: `Internal` when this client's own write
/// caused it, `External` when the device reported it independently.
#[derive(Debug, Clone, PartialEq)]
pub enum Update {
    Internal(String, Value),
    External(String, Value),
}

/// The mathematical shadow of an `Update`.
pub enum UpdateView {
    Internal(Seq<char>, ValueView),
    External(Seq<char>, ValueView),
}

impl View for Update {
    type V = UpdateView;

    open spec fn view(&self) -> UpdateView {
        match self {
            Update::Internal(k, v) => UpdateView::Internal(k@, v@),
            Update::External(k, v) => UpdateView::External(k@, v@),
        }
    }
}

/// The path and value of an update, whichever its origin.
pub open spec fn spec_update_parts(u: UpdateView) -> (Seq<char>, ValueView) {
    match u {
        UpdateView::Internal(k, v) => (k, v),
        UpdateView::External(k, v) => (k, v),
    }
}

impl Update {
    /// The path and value, whichever the origin.
    pub fn any(self) -> (r: (String, Value))
        ensures
            (r.0@, r.1@) == spec_update_parts(self@),
    {
        match self {
            Update::Internal(k, v) => (k, v),
            Update::External(k, v) => (k, v),
        }
    }
}

#[verifier::external_type_specification]
#[verifier::external_body]
#[verifier::reject_recursive_types(T)]
pub struct ExSender<T>(tokio::sync::broadcast::Sender<T>);

#[verifier::external_type_specification]
#[verifier::external_body]
#[verifier::reject_recursive_types(T)]
pub struct ExReceiver<T>(tokio::sync::broadcast::Receiver<T>);

/// Everything this sender has emitted since the bus was created, oldest
/// first.
pub uninterp spec fn bus_emitted(s: &tokio::sync::broadcast::Sender<Update>) -> Seq<UpdateView>;

/// The empty emission history.
pub open spec fn spec_empty_log() -> Seq<UpdateView> {
    Seq::<UpdateView>::empty()
}

/// The engine's fan-out bus. Any number of subscribers receive every
/// update emitted after they subscribed, in emission order; a subscriber
/// that stops consuming is handed a lagged signal instead of blocking the
/// emitter or its peers.
#[derive(Debug)]
pub struct UpdateBus {
    /// The backing broadcast sender.
    pub tx: tokio::sync::broadcast::Sender<Update>,
}

impl View for UpdateBus {
    type V = Seq<UpdateView>;

    closed spec fn view(&self) -> Seq<UpdateView> {
        bus_emitted(&self.tx)
    }
}

impl UpdateBus {
    /// Relies on tokio's `broadcast::channel`: a fresh channel has emitted
    /// nothing. It panics on a zero capacity or one above `usize::MAX / 2`,
    /// so those are required away.
    #[verifier::external_body]
    pub fn new(capacity: usize) -> (r: UpdateBus)
        requires
            1 <= capacity <= usize::MAX / 2,
        ensures
            bus_emitted(&r.tx) == spec_empty_log(),
            r@ == spec_empty_log(),
    {
        let (tx, _rx) = tokio::sync::broadcast::channel(capacity);
        UpdateBus { tx }
    }

    /// Relies on `broadcast::Sender::send`: the value goes to every active
    /// receiver, in emission order; receivers that have fallen more than
    /// the bus capacity behind get a lagged signal rather than blocking
    /// this call. A send with no receivers returns an error carrying the
    /// value back, which is deliberately ignored: the emission history
    /// still records the update.
    #[verifier::external_body]
    pub fn send(&mut self, u: Update)
        ensures
            bus_emitted(&final(self).tx) == bus_emitted(&old(self).tx).push(u@),
            final(self)@ == old(self)@.push(u@),
    {
        let _ = self.tx.send(u);
    }

    /// Relies on `broadcast::Sender::subscribe`: the receiver sees every
    /// value emitted after this call, in emission order.
    #[verifier::external_body]
    pub fn subscribe(&self) -> tokio::sync::broadcast::Receiver<Update> {
        self.tx.subscribe()
    }
}

} // verus!
