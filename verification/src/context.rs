//! The capability through which an application learns of its deliveries.

use vstd::prelude::*;
use crate::report::DeliveryReport;

verus! {

/// A `ProducerContext` receives the delivery report of every message that the
/// producer it belongs to has sent.
///
/// The producer owns one context for as long as it lives and lends it to each
/// delivery; it never gives it away.
pub trait ProducerContext: Send + Sync {
    /// A `DeliveryContext` is a value of the application's choosing that is
    /// handed to the producer together with a message, and handed back to
    /// `delivery` once the message has been delivered, or failed to.
    type DeliveryContext: Send + Sync;

    /// Called once for each message whose fate is known, with its report and
    /// the delivery context that was sent along with it, `None` where the
    /// message was sent without one.
    fn delivery(&self, report: DeliveryReport, delivery_context: Option<Self::DeliveryContext>);
}

/// The context of a producer that does nothing with its delivery reports.
#[derive(Clone, Copy, Debug)]
pub struct EmptyProducerContext;

impl ProducerContext for EmptyProducerContext {
    type DeliveryContext = ();

    fn delivery(&self, _report: DeliveryReport, _delivery_context: Option<()>) {
    }
}

} // verus!
