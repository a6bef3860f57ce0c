//! Ready-made, verified [`Handler`] implementations.
//!
//! [`Handler`] couples executable code to its specification functions, so
//! unverified code cannot implement it; these handlers cover the common
//! shapes of event handling — recording the event into the receiver state,
//! and retiring registrations once an event has fired — and double as worked
//! examples for writing further handlers.

use vstd::prelude::*;

use crate::callback_registry::{DeferredOp, Handler, HandlerOutcome, Key};

verus! {

/// A [`Handler`] that stores each event it receives into its receiver state,
/// replacing the previous one.
///
/// The receiver is `Option<T>`: `None` until the first event arrives, then
/// always `Some` of the latest parameter, passed through unchanged.  This
/// handler never panics and never schedules deferred work.
pub struct LatestEvent;

impl<T, P> Handler<Option<T>, T, P> for LatestEvent {
    open spec fn panics(&self, receiver: Option<T>, parameter: T) -> bool {
        false
    }

    open spec fn new_receiver(&self, receiver: Option<T>, parameter: T) -> Option<T> {
        Option::Some(parameter)
    }

    open spec fn panic_payload(&self, receiver: Option<T>, parameter: T) -> P {
        vstd::pervasive::arbitrary()
    }

    open spec fn scheduled(&self, receiver: Option<T>, parameter: T) -> Seq<
        DeferredOp<Option<T>, Self>,
    > {
        Seq::empty()
    }

    fn call(&self, receiver: &Option<T>, parameter: T) -> (outcome: HandlerOutcome<
        Option<T>,
        P,
        Self,
    >) {
        HandlerOutcome::Returned(Option::Some(parameter), Vec::new())
    }
}

/// A [`Handler`] for event bindings that retire registrations when they
/// fire, as an event bound with [`EventBindingOptions::once`] might.
///
/// Its receiver state is a pair of the number of events seen so far
/// (saturating) and the latest event parameter.  When it runs, it schedules
/// one deferred deregistration for each key in [`RetireOnEvent::targets`], in
/// order.  Where [`RetireOnEvent::abort`] is set, the handler instead panics
/// with that payload after scheduling — so the scheduled deregistrations are
/// discarded and none of the targets is retired.
///
/// [`EventBindingOptions::once`]: crate::EventBindingOptions::once
pub struct RetireOnEvent {
    /// The keys whose entries this handler deregisters, deferred, when it
    /// runs.  The owning [`CallbackRegistration`]s are spent by this.
    ///
    /// [`CallbackRegistration`]: crate::CallbackRegistration
    pub targets: Vec<Key>,
    /// Set to make the handler panic with this payload instead of returning.
    pub abort: Option<u64>,
}

impl<T> Handler<(u64, Option<T>), T, u64> for RetireOnEvent {
    open spec fn panics(&self, receiver: (u64, Option<T>), parameter: T) -> bool {
        self.abort is Some
    }

    open spec fn new_receiver(&self, receiver: (u64, Option<T>), parameter: T) -> (
        u64,
        Option<T>,
    ) {
        (
            if receiver.0 < u64::MAX {
                (receiver.0 + 1) as u64
            } else {
                receiver.0
            },
            Option::Some(parameter),
        )
    }

    open spec fn panic_payload(&self, receiver: (u64, Option<T>), parameter: T) -> u64 {
        match self.abort {
            Option::Some(payload) => payload,
            Option::None => 0,
        }
    }

    open spec fn scheduled(&self, receiver: (u64, Option<T>), parameter: T) -> Seq<
        DeferredOp<(u64, Option<T>), Self>,
    > {
        Seq::new(self.targets@.len(), |i: int| DeferredOp::Deregister(self.targets@[i]))
    }

    fn call(&self, receiver: &(u64, Option<T>), parameter: T) -> (outcome: HandlerOutcome<
        (u64, Option<T>),
        u64,
        Self,
    >) {
        let mut ops: Vec<DeferredOp<(u64, Option<T>), Self>> = Vec::new();
        let mut i: usize = 0;
        while i < self.targets.len()
            invariant
                i <= self.targets@.len(),
                ops@.len() == i,
                forall|j: int|
                    0 <= j < i ==> ops@[j] == DeferredOp::<(u64, Option<T>), Self>::Deregister(
                        self.targets@[j],
                    ),
            decreases self.targets@.len() - i,
        {
            ops.push(DeferredOp::Deregister(self.targets[i]));
            i = i + 1;
        }
        proof {
            assert(ops@ =~= self.scheduled(*receiver, parameter));
        }
        match self.abort {
            Option::Some(payload) => HandlerOutcome::Panicked(payload, ops),
            Option::None => {
                let count = if receiver.0 < u64::MAX {
                    receiver.0 + 1
                } else {
                    receiver.0
                };
                HandlerOutcome::Returned((count, Option::Some(parameter)), ops)
            },
        }
    }
}

} // verus!
