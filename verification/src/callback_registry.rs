//! Callback registry plumbing, for renderers and app runners that support
//! callbacks and need to run indefinitely.
//!
//! A [`CallbackRegistry`] is an explicit table object: the host application
//! constructs one and passes it to every component that registers callbacks
//! and to every renderer that dispatches them.  Components register a
//! *receiver* (the state their handler works on) together with a *handler*
//! (an implementation of [`Handler`]) and hold on to the returned
//! [`CallbackRegistration`]; the copyable [`CallbackRef`]s derived from a
//! registration are what gets embedded into virtual-DOM nodes.
//!
//! The registry owns the receivers it was handed, so a reference resolved
//! long after the matching component was torn down can never dangle: once the
//! registration has been deregistered, invoking one of its references is a
//! defined no-op.

use vstd::prelude::*;

use crate::DomRef;

verus! {

/// A unique, non-zero identifier for one callback registration.
///
/// Keys are issued by a [`CallbackRegistry`] from a monotonic 64-bit counter,
/// so during normal operation (that is, short of an administrative reset) a
/// key is never reused.
#[derive(Debug, Clone, Copy, PartialEq, Eq, PartialOrd, Ord, Hash, Structural)]
pub struct Key(pub u64);

/// One row of a [`CallbackRegistry`]: a key together with the receiver state
/// and the handler registered under it.
pub struct Entry<R, H> {
    /// The key the entry was registered under.
    pub key: Key,
    /// The receiver state the handler works on, owned by the registry.
    pub receiver: R,
    /// The handler dispatched for this entry.
    pub handler: H,
}

/// An owning handle for one live registry entry.
///
/// A registration is deliberately not copyable: it alone carries the
/// responsibility of removing its entry again, by being passed to
/// [`CallbackRegistry::deregister`].  Copyable [`CallbackRef`]s pointing at
/// the same entry are derived from it with [`CallbackRegistration::to_ref`]
/// and [`CallbackRegistration::to_ref_thread_bound`].
#[derive(Debug, PartialEq, Eq, Hash, Structural)]
pub struct CallbackRegistration {
    /// The key of the entry this registration owns.
    pub key: Key,
    /// Whether the receiver behind this registration may be shared across
    /// threads.  Set from the capability flag passed to
    /// [`CallbackRegistry::register`]; gates [`CallbackRegistration::to_ref`].
    pub thread_safe: bool,
}

/// A small, copyable reference to a callback registration, safe to embed in
/// virtual-DOM nodes.
///
/// References compare, order and hash purely by their key, deliberately
/// ignoring the receiver and handler behind them.  All references derived
/// from one registration are therefore equal, whichever of
/// [`CallbackRegistration::to_ref`] and
/// [`CallbackRegistration::to_ref_thread_bound`] produced them, while
/// references derived from two distinct registrations are always distinct,
/// even if those were created with identical receiver and handler values:
/// tree diffing relies on this to tell "this event binding's identity
/// changed" from "this event binding is the same as before".
///
/// Whether a reference may be shared across threads is not part of the value:
/// it is a capability of the registration it came from, enforced where the
/// reference is created ([`CallbackRegistration::to_ref`] demands it,
/// [`CallbackRegistration::to_ref_thread_bound`] never grants it).
#[derive(Debug, Clone, Copy, PartialEq, Eq, PartialOrd, Ord, Hash, Structural)]
pub struct CallbackRef {
    /// The key of the registration this reference was derived from.
    pub key: Key,
}

impl CallbackRegistration {
    /// The [`CallbackRef`] denoting this registration: every reference
    /// derived from it, by whichever method.
    pub open spec fn ref_spec(&self) -> CallbackRef {
        CallbackRef { key: self.key }
    }

    /// Creates a [`CallbackRef`] from this [`CallbackRegistration`] that may
    /// be shared across threads.
    ///
    /// This is the capability gate for sharing a reference across threads: it
    /// is only available on registrations whose receiver was declared safely
    /// shareable when it was registered.
    pub fn to_ref(&self) -> (r: CallbackRef)
        requires
            self.thread_safe,
        ensures
            r == self.ref_spec(),
    {
        CallbackRef { key: self.key }
    }

    /// Creates a thread-bound [`CallbackRef`] from this [`CallbackRegistration`]:
    /// one that grants no leave to cross threads.
    ///
    /// Available on every registration, whether or not its receiver may be
    /// shared across threads, and equal to what
    /// [`CallbackRegistration::to_ref`] returns, since references compare by
    /// key alone.
    pub fn to_ref_thread_bound(&self) -> (r: CallbackRef)
        ensures
            r == self.ref_spec(),
    {
        CallbackRef { key: self.key }
    }

    /// Discards a [`CallbackRegistration`] without removing its entry.
    ///
    /// The entry stays live forever (short of an administrative clear), so
    /// every [`CallbackRef`] derived from it keeps dispatching.  Use this only
    /// where the receiver state is meant to outlive all handles to it.
    pub fn leak(self) {
    }
}

/// Law: reference equality is equality of keys.  References derived from
/// registrations with distinct keys are unequal, whatever combination of
/// [`CallbackRegistration::to_ref`] and
/// [`CallbackRegistration::to_ref_thread_bound`] produced them — even when
/// the registrations were created with identical receiver and handler
/// values, which the references deliberately do not record.  Conversely, all
/// references derived from one registration are equal, by either method or by
/// copying.
pub proof fn lemma_ref_equality_is_key_equality(a: &CallbackRegistration, b: &CallbackRegistration)
    ensures
        (a.ref_spec() == b.ref_spec()) <==> (a.key == b.key),
        a.ref_spec() == (CallbackRef { key: a.key }),
{
}

/// Whether `entries` holds an entry registered under `k`.
pub open spec fn live_in<R, H>(entries: Seq<Entry<R, H>>, k: Key) -> bool {
    exists|i: int| 0 <= i < entries.len() && entries[i].key == k
}

/// The index of the entry registered under `k`, provided one is live.
pub open spec fn index_in<R, H>(entries: Seq<Entry<R, H>>, k: Key) -> int {
    choose|i: int| 0 <= i < entries.len() && entries[i].key == k
}

/// Whether `entries` is ordered by strictly increasing key, as every
/// well-formed registry's table is.
pub open spec fn sorted_by_key<R, H>(entries: Seq<Entry<R, H>>) -> bool {
    forall|i: int, j: int| 0 <= i < j < entries.len() ==> entries[i].key.0 < entries[j].key.0
}

/// In a table ordered by strictly increasing key, an entry's position is the
/// one [`index_in`] denotes: keys are unique, so the two cannot disagree.
pub proof fn lemma_index_in_unique<R, H>(entries: Seq<Entry<R, H>>, i: int, k: Key)
    requires
        sorted_by_key(entries),
        0 <= i < entries.len(),
        entries[i].key == k,
    ensures
        live_in(entries, k),
        index_in(entries, k) == i,
{
    assert(live_in(entries, k));
    let w = index_in(entries, k);
    assert(0 <= w < entries.len() && entries[w].key == k);
    if w < i {
        assert(entries[w].key.0 < entries[i].key.0);
    } else if i < w {
        assert(entries[i].key.0 < entries[w].key.0);
    }
}

/// Removing the entry registered under a live key from a table ordered by
/// strictly increasing key keeps the order, kills exactly that key, and
/// leaves every other key's liveness as it was.
pub proof fn lemma_remove_entry<R, H>(entries: Seq<Entry<R, H>>, k: Key)
    requires
        sorted_by_key(entries),
        live_in(entries, k),
    ensures
        ({
            let rest = entries.remove(index_in(entries, k));
            &&& sorted_by_key(rest)
            &&& !live_in(rest, k)
            &&& forall|k2: Key| k2 != k ==> live_in(rest, k2) == live_in(entries, k2)
        }),
{
    let i = index_in(entries, k);
    assert(0 <= i < entries.len() && entries[i].key == k);
    let rest = entries.remove(i);
    assert forall|a: int, b: int| 0 <= a < b < rest.len() implies rest[a].key.0 < rest[b].key.0 by {
        if b < i {
            assert(rest[a] == entries[a] && rest[b] == entries[b]);
        } else if a < i {
            assert(rest[a] == entries[a] && rest[b] == entries[b + 1]);
        } else {
            assert(rest[a] == entries[a + 1] && rest[b] == entries[b + 1]);
        }
    }
    assert(!live_in(rest, k)) by {
        if live_in(rest, k) {
            let w = index_in(rest, k);
            assert(0 <= w < rest.len() && rest[w].key == k);
            let pw = if w < i {
                w
            } else {
                w + 1
            };
            assert(entries[pw].key == k);
            lemma_index_in_unique(entries, pw, k);
        }
    }
    assert forall|k2: Key| k2 != k implies live_in(rest, k2) == live_in(entries, k2) by {
        if live_in(entries, k2) {
            let w = index_in(entries, k2);
            assert(0 <= w < entries.len() && entries[w].key == k2);
            if w < i {
                assert(rest[w].key == k2);
            } else {
                assert(w != i);
                assert(rest[w - 1].key == k2);
            }
            assert(live_in(rest, k2));
        }
        if live_in(rest, k2) {
            let w = index_in(rest, k2);
            assert(0 <= w < rest.len() && rest[w].key == k2);
            let pw = if w < i {
                w
            } else {
                w + 1
            };
            assert(entries[pw].key == k2);
            assert(live_in(entries, k2));
        }
    }
}

/// A registry mutation whose execution a running handler defers until the
/// registry is no longer locked by the dispatch that is invoking it.
///
/// A handler runs while the dispatching [`CallbackRegistry::invoke`] holds
/// the table, so it cannot create or destroy registrations synchronously
/// without deadlocking on its own table access; these are exactly the
/// operations that need exclusive access, made deferrable as values.  The
/// handler returns them from [`Handler::call`] in the order it scheduled
/// them, and the dispatcher runs them in that order once the table is free
/// again.
pub enum DeferredOp<R, H> {
    /// Register `receiver` and `handler` as [`CallbackRegistry::register`]
    /// would; the `bool` is the thread-safety capability flag.  The
    /// [`CallbackRegistration`] this creates is handed back to the caller of
    /// the dispatching [`CallbackRegistry::invoke`].
    Register(R, H, bool),
    /// Deregister the entry registered under the given key, as
    /// [`CallbackRegistry::deregister`] would.  The owning
    /// [`CallbackRegistration`] is spent by this: a handler runs by shared
    /// reference and so cannot consume the handle itself, but whoever holds
    /// it must treat it as consumed once the op is scheduled.
    Deregister(Key),
}

/// What one handler invocation did: either it returned, leaving a new
/// receiver state behind, or it panicked.
///
/// Either way it carries the [`DeferredOp`]s the handler scheduled while it
/// ran, oldest first.  The dispatcher runs them only after a normal return;
/// the ops scheduled by a panicking handler are discarded unexecuted.
pub enum HandlerOutcome<R, P, H> {
    /// The handler returned normally.  The receiver state it left behind
    /// replaces the one it was invoked with, and the scheduled ops run once
    /// the dispatch completes.
    Returned(R, Vec<DeferredOp<R, H>>),
    /// The handler panicked with the given payload after scheduling the
    /// given ops.  The receiver state is left as it was, the ops are
    /// discarded, and the payload is propagated to the invoking caller.
    Panicked(P, Vec<DeferredOp<R, H>>),
}

/// The callback interface a receiver's event handler implements.
///
/// `R` is the receiver state the handler works on, `T` the event parameter it
/// is dispatched with, and `P` the payload of a panic it may raise.  One
/// handler type may serve several parameter types, just as one registry may
/// hold entries dispatched with different events.
///
/// An implementation declares its behaviour as the four specification
/// functions and must prove that [`Handler::call`] computes exactly that, so
/// everything [`CallbackRegistry::invoke`] guarantees is stated in their
/// terms.
pub trait Handler<R, T, P>: Sized {
    /// Whether handling `parameter` on `receiver` panics instead of
    /// returning.
    spec fn panics(&self, receiver: R, parameter: T) -> bool;

    /// The receiver state the handler leaves behind when it returns
    /// (meaningful only where [`Handler::panics`] is false).
    spec fn new_receiver(&self, receiver: R, parameter: T) -> R;

    /// The payload the handler panics with (meaningful only where
    /// [`Handler::panics`] is true).
    spec fn panic_payload(&self, receiver: R, parameter: T) -> P;

    /// The deferred registry mutations the handler schedules while it runs,
    /// oldest first.
    spec fn scheduled(&self, receiver: R, parameter: T) -> Seq<DeferredOp<R, Self>>;

    /// Handles one event: reads the receiver state and the parameter and
    /// reports the new receiver state (or a panic) together with any registry
    /// mutations to run once the table is free.
    fn call(&self, receiver: &R, parameter: T) -> (outcome: HandlerOutcome<R, P, Self>)
        ensures
            match outcome {
                HandlerOutcome::Returned(new_receiver, ops) => !self.panics(*receiver, parameter)
                    && new_receiver == self.new_receiver(*receiver, parameter) && ops@
                    == self.scheduled(*receiver, parameter),
                HandlerOutcome::Panicked(payload, ops) => self.panics(*receiver, parameter)
                    && payload == self.panic_payload(*receiver, parameter) && ops@
                    == self.scheduled(*receiver, parameter),
            },
    ;
}

/// Why [`CallbackRegistry::invoke`] reported failure.
#[derive(Debug, PartialEq, Eq)]
pub enum InvokeError<P> {
    /// The handler panicked with this payload; it is re-raised to the caller
    /// unchanged, delayed only by discarding the scheduled deferred ops.
    HandlerPanicked(P),
    /// A deferred deregistration named an entry that is no longer live — a
    /// double-removal, reported loudly instead of being ignored.  The
    /// deferred ops scheduled after the stale one are discarded.
    StaleDeregistration(Key),
    /// A deferred registration would have overflowed the key space.  Fatal:
    /// continuing would risk a key collision.
    KeysExhausted,
}

/// The state a registry is left in, and what it hands back, after running a
/// sequence of [`DeferredOp`]s in order on the given state: the new entries,
/// key counter and issued-key record, the [`CallbackRegistration`]s created
/// by deferred registrations (oldest first), and the error that stopped the
/// run, if any — ops past a failing one are discarded.
pub open spec fn spec_drain<R, H, P>(
    entries: Seq<Entry<R, H>>,
    key_count: int,
    issued: Seq<u64>,
    ops: Seq<DeferredOp<R, H>>,
) -> (Seq<Entry<R, H>>, int, Seq<u64>, Seq<CallbackRegistration>, Option<InvokeError<P>>)
    decreases ops.len(),
{
    if ops.len() == 0 {
        (entries, key_count, issued, Seq::empty(), Option::None)
    } else {
        match ops[0] {
            DeferredOp::Deregister(key) => if live_in(entries, key) {
                spec_drain(
                    entries.remove(index_in(entries, key)),
                    key_count,
                    issued,
                    ops.drop_first(),
                )
            } else {
                (
                    entries,
                    key_count,
                    issued,
                    Seq::empty(),
                    Option::Some(InvokeError::StaleDeregistration(key)),
                )
            },
            DeferredOp::Register(receiver, handler, thread_safe) => if key_count < u64::MAX {
                let key = Key((key_count + 1) as u64);
                let tail = spec_drain(
                    entries.push(Entry { key, receiver, handler }),
                    key_count + 1,
                    issued.push(key.0),
                    ops.drop_first(),
                );
                (
                    tail.0,
                    tail.1,
                    tail.2,
                    seq![CallbackRegistration { key, thread_safe }] + tail.3,
                    tail.4,
                )
            } else {
                (entries, key_count, issued, Seq::empty(), Option::Some(InvokeError::KeysExhausted))
            },
        }
    }
}

/// A process-wide table from [`Key`]s to callback entries.
///
/// `R` is the receiver state a handler works on and `H` the handler type (an
/// implementation of [`Handler`]); both are owned by the registry for the
/// lifetime of their entry.
///
/// The fields are public so that contracts can speak about them directly.
/// Every operation demands the well-formedness [`CallbackRegistry::wf`] and
/// re-establishes it, and [`CallbackRegistry::new`] establishes it; code that
/// writes the fields directly is on its own to keep it.
pub struct CallbackRegistry<R, H> {
    /// The running total of keys issued; the next registration gets
    /// `key_count + 1`.
    pub key_count: u64,
    /// The live entries, in strictly increasing key order.
    pub entries: Vec<Entry<R, H>>,
    /// The keys issued since the registry was created or last reset, oldest
    /// first; bookkeeping for the uniqueness guarantee, with no runtime cost.
    pub issued: Ghost<Seq<u64>>,
}

impl<R, H> CallbackRegistry<R, H> {
    /// Well-formedness: entries are sorted by strictly increasing key, all
    /// keys are non-zero and no larger than the counter, and the same holds
    /// of the record of issued keys.
    pub open spec fn wf(&self) -> bool {
        &&& sorted_by_key(self.entries@)
        &&& forall|i: int|
            0 <= i < self.entries@.len() ==> 1 <= #[trigger] self.entries@[i].key.0
                <= self.key_count
        &&& forall|i: int, j: int|
            0 <= i < j < self.issued@.len() ==> self.issued@[i] < self.issued@[j]
        &&& forall|i: int|
            0 <= i < self.issued@.len() ==> 1 <= #[trigger] self.issued@[i] <= self.key_count
    }

    /// Whether an entry is currently registered under `k`.
    pub open spec fn is_live(&self, k: Key) -> bool {
        live_in(self.entries@, k)
    }

    /// Creates an empty registry whose first registration will get key `1`.
    pub fn new() -> (r: Self)
        ensures
            r.wf(),
            r.key_count == 0,
            r.entries@.len() == 0,
            r.issued@ == Seq::<u64>::empty(),
    {
        CallbackRegistry { key_count: 0, entries: Vec::new(), issued: Ghost(Seq::empty()) }
    }

    /// Registers `handler` to be dispatched with `receiver` and returns the
    /// owning handle for the new entry.
    ///
    /// `receiver_thread_safe` declares whether concurrent access to the
    /// receiver would be sound; it gates [`CallbackRegistration::to_ref`] on
    /// the returned handle.
    ///
    /// The key space is 64 bits wide, so exhausting it is practically
    /// impossible; a caller that cannot rule it out checks
    /// [`CallbackRegistry::registry_exhaustion`] first, since continuing past
    /// the last key would risk a key collision.
    pub fn register(&mut self, receiver: R, handler: H, receiver_thread_safe: bool) -> (registration:
        CallbackRegistration)
        requires
            old(self).wf(),
            old(self).key_count < u64::MAX,
        ensures
            final (self).wf(),
            final (self).key_count == old(self).key_count + 1,
            registration.key.0 == final (self).key_count,
            registration.thread_safe == receiver_thread_safe,
            final (self).entries@ == old(self).entries@.push(
                Entry { key: registration.key, receiver, handler },
            ),
            final (self).issued@ == old(self).issued@.push(registration.key.0),
            final (self).is_live(registration.key),
    {
        self.key_count = self.key_count + 1;
        let key = Key(self.key_count);
        self.entries.push(Entry { key, receiver, handler });
        proof {
            self.issued@ = self.issued@.push(key.0);
        }
        let registration = CallbackRegistration { key, thread_safe: receiver_thread_safe };
        proof {
            let post = self.entries@;
            assert(post[post.len() - 1].key == key);
        }
        registration
    }

    /// Law: the keys a registry has issued since it was created (or last
    /// reset) are strictly increasing in order of registration, and hence
    /// pairwise distinct.
    pub proof fn lemma_issued_keys_strictly_increasing(&self)
        requires
            self.wf(),
        ensures
            forall|i: int, j: int|
                0 <= i < j < self.issued@.len() ==> self.issued@[i] < self.issued@[j],
            forall|i: int, j: int|
                0 <= i < self.issued@.len() && 0 <= j < self.issued@.len() && i != j
                    ==> self.issued@[i] != self.issued@[j],
    {
    }

    /// No two live entries share a key.
    pub proof fn lemma_keys_unique(&self)
        requires
            self.wf(),
        ensures
            forall|i: int, j: int|
                0 <= i < self.entries@.len() && 0 <= j < self.entries@.len() && self.entries@[i].key
                    == self.entries@[j].key ==> i == j,
    {
        assert forall|i: int, j: int|
            0 <= i < self.entries@.len() && 0 <= j < self.entries@.len() && self.entries@[i].key
                == self.entries@[j].key implies i == j by {
            if i < j {
                assert(self.entries@[i].key.0 < self.entries@[j].key.0);
            } else if j < i {
                assert(self.entries@[j].key.0 < self.entries@[i].key.0);
            }
        }
    }

    /// Looks up the position of the entry registered under `key`, if any.
    fn find_index(&self, key: Key) -> (r: Option<usize>)
        requires
            self.wf(),
        ensures
            match r {
                Option::Some(i) => i < self.entries@.len() && self.entries@[i as int].key == key
                    && i as int == index_in(self.entries@, key),
                Option::None => !self.is_live(key),
            },
    {
        let mut i: usize = 0;
        while i < self.entries.len()
            invariant
                self.wf(),
                i <= self.entries@.len(),
                forall|j: int| 0 <= j < i ==> self.entries@[j].key != key,
            decreases self.entries@.len() - i,
        {
            if self.entries[i].key.0 == key.0 {
                proof {
                    self.lemma_keys_unique();
                    let w = index_in(self.entries@, key);
                    assert(0 <= w < self.entries@.len() && self.entries@[w].key == key);
                }
                return Option::Some(i);
            }
            i = i + 1;
        }
        Option::None
    }

    /// Removes the entry registered under `key`, which must be live.
    fn remove_key(&mut self, key: Key)
        requires
            old(self).wf(),
            old(self).is_live(key),
        ensures
            final (self).wf(),
            final (self).key_count == old(self).key_count,
            final (self).issued@ == old(self).issued@,
            final (self).entries@ == old(self).entries@.remove(
                index_in(old(self).entries@, key),
            ),
            !final (self).is_live(key),
            forall|k: Key| k != key ==> final (self).is_live(k) == old(self).is_live(k),
    {
        let found = self.find_index(key);
        match found {
            Option::Some(i) => {
                let ghost pre = self.entries@;
                self.entries.remove(i);
                proof {
                    lemma_remove_entry(pre, key);
                    assert forall|a: int| 0 <= a < self.entries@.len() implies 1
                        <= #[trigger] self.entries@[a].key.0 <= self.key_count by {
                        if a < i as int {
                            assert(self.entries@[a] == pre[a]);
                        } else {
                            assert(self.entries@[a] == pre[a + 1]);
                        }
                    }
                }
            },
            Option::None => {
                proof {
                    assert(false);
                }
                vstd::pervasive::unreached()
            },
        }
    }

    /// Removes the entry owned by `registration`, consuming the handle.
    ///
    /// Removal is the owning handle's sole responsibility, so the entry must
    /// still be live: deregistering a handle whose entry was already removed
    /// (for example by
    /// [`CallbackRegistry::yet_more_unsafe_force_clear_callback_registry`] or
    /// by a deferred [`DeferredOp::Deregister`] naming its key) is a
    /// lifecycle violation.  Verified callers are held to that by the
    /// precondition; an unverified caller that breaks it reaches a guaranteed
    /// runtime panic rather than a silently inconsistent table.
    pub fn deregister(&mut self, registration: CallbackRegistration)
        requires
            old(self).wf(),
            old(self).is_live(registration.key),
        ensures
            final (self).wf(),
            final (self).key_count == old(self).key_count,
            final (self).issued@ == old(self).issued@,
            final (self).entries@ == old(self).entries@.remove(
                index_in(old(self).entries@, registration.key),
            ),
            !final (self).is_live(registration.key),
            forall|k: Key| k != registration.key ==> final (self).is_live(k) == old(self).is_live(k),
    {
        self.remove_key(registration.key);
    }

    /// Borrows the receiver state owned by the entry registered under `key`,
    /// or returns [`None`] if no such entry is live.
    ///
    /// The registry owns every receiver it was handed, so this is how a
    /// component reads back what its handler did.
    pub fn get_receiver(&self, key: Key) -> (r: Option<&R>)
        requires
            self.wf(),
        ensures
            match r {
                Option::Some(receiver) => self.is_live(key) && *receiver == self.entries@[index_in(
                    self.entries@,
                    key,
                )].receiver,
                Option::None => !self.is_live(key),
            },
    {
        let found = self.find_index(key);
        match found {
            Option::Some(i) => Option::Some(&self.entries[i].receiver),
            Option::None => Option::None,
        }
    }

    /// Indicates how exhausted the key space is on a linear scale, with `0`
    /// indicating no or very low exhaustion and `255` indicating almost
    /// complete or complete exhaustion.
    ///
    /// The gauge is the high-order byte of the key counter; it is meant for
    /// operational monitoring, not correctness.
    pub fn registry_exhaustion(&self) -> (r: u8)
        ensures
            r == (self.key_count >> 56) as u8,
    {
        (self.key_count >> 56) as u8
    }

    /// Tries to rewind the key counter to zero.
    ///
    /// This succeeds exactly when no registrations are live, so that no
    /// future key can collide with a live one.  Should it fail, the counter
    /// is instead set to the highest live key — the lowest value that still
    /// rules out a collision — and the table itself is left untouched.
    ///
    /// Even after success, the caller must ensure that no [`CallbackRef`]
    /// created from an already-deregistered registration is ever invoked
    /// again, since its key may now be reissued.
    pub fn reset_callback_registry(&mut self) -> (r: Result<(), ()>)
        requires
            old(self).wf(),
        ensures
            final (self).wf(),
            final (self).entries@ == old(self).entries@,
            old(self).entries@.len() == 0 ==> r is Ok && final (self).key_count == 0,
            old(self).entries@.len() > 0 ==> r is Err && final (self).key_count == old(
                self,
            ).entries@.last().key.0,
            final (self).issued@ == final (self).entries@.map_values(|e: Entry<R, H>| e.key.0),
    {
        if self.entries.len() == 0 {
            self.key_count = 0;
            proof {
                self.issued@ = Seq::empty();
                assert(self.issued@ =~= self.entries@.map_values(|e: Entry<R, H>| e.key.0));
            }
            Result::Ok(())
        } else {
            let last = self.entries.len() - 1;
            self.key_count = self.entries[last].key.0;
            proof {
                self.issued@ = self.entries@.map_values(|e: Entry<R, H>| e.key.0);
                assert forall|i: int| 0 <= i < self.entries@.len() implies 1
                    <= #[trigger] self.entries@[i].key.0 <= self.key_count by {
                    if i < last as int {
                        assert(self.entries@[i].key.0 < self.entries@[last as int].key.0);
                    }
                }
            }
            Result::Err(())
        }
    }

    /// Unconditionally empties the table and rewinds the key counter to zero.
    ///
    /// This ignores live registrations, so the caller must guarantee that no
    /// surviving [`CallbackRegistration`] is ever deregistered afterwards
    /// (its entry is gone, which [`CallbackRegistry::deregister`] treats as a
    /// lifecycle violation) and that no surviving [`CallbackRef`] is ever
    /// invoked again.  This is an explicitly dangerous, opt-in operation for
    /// controlled shutdown and restart, not part of normal operation.
    pub fn yet_more_unsafe_force_clear_callback_registry(&mut self)
        ensures
            final (self).wf(),
            final (self).entries@.len() == 0,
            final (self).key_count == 0,
            final (self).issued@ == Seq::<u64>::empty(),
    {
        self.entries.clear();
        self.key_count = 0;
        proof {
            self.issued@ = Seq::empty();
        }
    }
}

/// Law: a dispatch drains its queue strictly in scheduling order.  For any
/// two runs of deferred ops, draining their concatenation is draining the
/// first run to completion and then draining the second on the state the
/// first left behind — provided the first run succeeds (a failure discards
/// everything after it).  So every scheduled op takes effect exactly once, at
/// its own position in the queue, never earlier and never again later.
pub proof fn lemma_drain_in_scheduling_order<R, H, P>(
    entries: Seq<Entry<R, H>>,
    key_count: int,
    issued: Seq<u64>,
    first: Seq<DeferredOp<R, H>>,
    second: Seq<DeferredOp<R, H>>,
)
    ensures
        ({
            let d1 = spec_drain::<R, H, P>(entries, key_count, issued, first);
            let d2 = spec_drain::<R, H, P>(d1.0, d1.1, d1.2, second);
            d1.4 is None ==> spec_drain::<R, H, P>(entries, key_count, issued, first + second)
                == (d2.0, d2.1, d2.2, d1.3 + d2.3, d2.4)
        }),
    decreases first.len(),
{
    let d1 = spec_drain::<R, H, P>(entries, key_count, issued, first);
    if first.len() == 0 {
        if d1.4 is None {
            let d2 = spec_drain::<R, H, P>(d1.0, d1.1, d1.2, second);
            assert(first + second =~= second);
            assert(d1.3 + d2.3 =~= d2.3);
        }
    } else {
        let both = first + second;
        assert(both.len() > 0 && both[0] == first[0]);
        assert(both.drop_first() =~= first.drop_first() + second);
        match first[0] {
            DeferredOp::Deregister(key) => {
                if live_in(entries, key) {
                    let rest = entries.remove(index_in(entries, key));
                    lemma_drain_in_scheduling_order::<R, H, P>(
                        rest,
                        key_count,
                        issued,
                        first.drop_first(),
                        second,
                    );
                }
            },
            DeferredOp::Register(receiver, handler, thread_safe) => {
                if key_count < u64::MAX {
                    let key = Key((key_count + 1) as u64);
                    let grown = entries.push(Entry { key, receiver, handler });
                    lemma_drain_in_scheduling_order::<R, H, P>(
                        grown,
                        key_count + 1,
                        issued.push(key.0),
                        first.drop_first(),
                        second,
                    );
                    if d1.4 is None {
                        let t1 = spec_drain::<R, H, P>(
                            grown,
                            key_count + 1,
                            issued.push(key.0),
                            first.drop_first(),
                        );
                        let d2 = spec_drain::<R, H, P>(d1.0, d1.1, d1.2, second);
                        let reg = seq![CallbackRegistration { key, thread_safe }];
                        assert(d1.3 =~= reg + t1.3);
                        assert((reg + (t1.3 + d2.3)) =~= ((reg + t1.3) + d2.3));
                    }
                }
            },
        }
    }
}

/// Law: registrations deferred by a handler allocate keys exactly as direct
/// calls of [`CallbackRegistry::register`] do.  A run of deferred
/// registrations succeeds (short of key exhaustion) and hands back one handle
/// per op, in scheduling order, carrying the strictly increasing — and hence
/// pairwise distinct — keys that continue the registry's counter.
pub proof fn lemma_deferred_registrations_issue_increasing_keys<R, H, P>(
    entries: Seq<Entry<R, H>>,
    key_count: int,
    issued: Seq<u64>,
    ops: Seq<DeferredOp<R, H>>,
)
    requires
        0 <= key_count,
        key_count + ops.len() <= u64::MAX,
        forall|n: int| 0 <= n < ops.len() ==> ops[n] is Register,
    ensures
        ({
            let d = spec_drain::<R, H, P>(entries, key_count, issued, ops);
            &&& d.4 is None
            &&& d.1 == key_count + ops.len()
            &&& d.3.len() == ops.len()
            &&& forall|n: int| 0 <= n < ops.len() ==> #[trigger] d.3[n].key.0 == key_count + n + 1
        }),
    decreases ops.len(),
{
    if ops.len() > 0 {
        match ops[0] {
            DeferredOp::Register(receiver, handler, thread_safe) => {
                let key = Key((key_count + 1) as u64);
                let grown = entries.push(Entry { key, receiver, handler });
                lemma_deferred_registrations_issue_increasing_keys::<R, H, P>(
                    grown,
                    key_count + 1,
                    issued.push(key.0),
                    ops.drop_first(),
                );
                let d = spec_drain::<R, H, P>(entries, key_count, issued, ops);
                let dt = spec_drain::<R, H, P>(grown, key_count + 1, issued.push(key.0), ops.drop_first());
                assert(d.3 == seq![CallbackRegistration { key, thread_safe }] + dt.3);
                assert forall|n: int| 0 <= n < ops.len() implies #[trigger] d.3[n].key.0
                    == key_count + n + 1 by {
                    if n > 0 {
                        assert(d.3[n] == dt.3[n - 1]);
                    }
                }
            },
            DeferredOp::Deregister(_) => {
                assert(false);
            },
        }
    }
}

/// Law: a dispatch drains its queue of deferred deregistrations in scheduling
/// order, and each of them takes effect exactly once.  For any run of
/// deferred deregistrations naming pairwise distinct, live keys: the drain
/// succeeds, afterwards none of the named keys is live while every other
/// key's entry is exactly as it was, and the key counter and issued-key
/// record are untouched.  (That each key is retired at most once shows in the
/// distinctness demand: a run that names the same key twice instead stops at
/// [`InvokeError::StaleDeregistration`], by definition of [`spec_drain`].)
pub proof fn lemma_drain_retires_each_key_once<R, H, P>(
    entries: Seq<Entry<R, H>>,
    key_count: int,
    issued: Seq<u64>,
    keys: Seq<Key>,
)
    requires
        sorted_by_key(entries),
        forall|n: int| 0 <= n < keys.len() ==> live_in(entries, #[trigger] keys[n]),
        forall|n: int, m: int| 0 <= n < m < keys.len() ==> keys[n] != keys[m],
    ensures
        ({
            let ops = Seq::new(keys.len(), |n: int| DeferredOp::<R, H>::Deregister(keys[n]));
            let d = spec_drain::<R, H, P>(entries, key_count, issued, ops);
            &&& d.1 == key_count
            &&& d.2 == issued
            &&& d.3 == Seq::<CallbackRegistration>::empty()
            &&& d.4 is None
            &&& sorted_by_key(d.0)
            &&& forall|n: int| 0 <= n < keys.len() ==> !live_in(d.0, #[trigger] keys[n])
            &&& forall|k2: Key|
                !keys.contains(k2) ==> live_in(d.0, k2) == live_in(entries, k2)
        }),
    decreases keys.len(),
{
    let ops = Seq::new(keys.len(), |n: int| DeferredOp::<R, H>::Deregister(keys[n]));
    if keys.len() == 0 {
        assert(spec_drain::<R, H, P>(entries, key_count, issued, ops) == (
            entries,
            key_count,
            issued,
            Seq::<CallbackRegistration>::empty(),
            Option::<InvokeError<P>>::None,
        ));
    } else {
        let head = keys[0];
        assert(ops[0] == DeferredOp::<R, H>::Deregister(head));
        assert(live_in(entries, head));
        let rest = entries.remove(index_in(entries, head));
        lemma_remove_entry(entries, head);
        let tail_keys = keys.drop_first();
        assert forall|n: int| 0 <= n < tail_keys.len() implies live_in(
            rest,
            #[trigger] tail_keys[n],
        ) by {
            assert(tail_keys[n] == keys[n + 1]);
            assert(keys[n + 1] != keys[0]);
        }
        lemma_drain_retires_each_key_once::<R, H, P>(rest, key_count, issued, tail_keys);
        let tail_ops = Seq::new(tail_keys.len(), |n: int| DeferredOp::<R, H>::Deregister(tail_keys[n]));
        assert(ops.drop_first() =~= tail_ops);
        let d = spec_drain::<R, H, P>(entries, key_count, issued, ops);
        let dt = spec_drain::<R, H, P>(rest, key_count, issued, tail_ops);
        assert(d == dt);
        assert(!live_in(d.0, head)) by {
            assert(!tail_keys.contains(head));
            assert(!live_in(rest, head));
        }
        assert forall|n: int| 0 <= n < keys.len() implies !live_in(d.0, #[trigger] keys[n]) by {
            if n > 0 {
                assert(keys[n] == tail_keys[n - 1]);
            }
        }
        assert forall|k2: Key| !keys.contains(k2) implies live_in(d.0, k2) == live_in(
            entries,
            k2,
        ) by {
            assert(k2 != head);
            assert(!tail_keys.contains(k2)) by {
                if tail_keys.contains(k2) {
                    let w = choose|w: int| 0 <= w < tail_keys.len() && tail_keys[w] == k2;
                    assert(keys[w + 1] == k2);
                }
            }
            assert(live_in(d.0, k2) == live_in(rest, k2));
            assert(live_in(rest, k2) == live_in(entries, k2));
        }
    }
}

/// The state a registry is left in, and what it hands back, after one
/// dispatch of `parameter` to the entry registered under `key` on the given
/// state.
///
/// If no entry is live under `key`, nothing changes and the dispatch reports
/// success: the registration was dropped while a reference to it was still in
/// circulation, which is an expected race during teardown, not an error.
/// Otherwise the entry's handler decides: if it returns, its new receiver
/// state replaces the old one and the deferred ops it scheduled run in order;
/// if it panics, the table is left untouched, the scheduled ops are
/// discarded, and the panic payload is reported.
pub open spec fn spec_invoke<R, T, P, H: Handler<R, T, P>>(
    entries: Seq<Entry<R, H>>,
    key_count: int,
    issued: Seq<u64>,
    key: Key,
    parameter: T,
) -> (Seq<Entry<R, H>>, int, Seq<u64>, Seq<CallbackRegistration>, Result<(), InvokeError<P>>) {
    if !live_in(entries, key) {
        (entries, key_count, issued, Seq::empty(), Result::Ok(()))
    } else {
        let i = index_in(entries, key);
        let e = entries[i];
        if e.handler.panics(e.receiver, parameter) {
            (
                entries,
                key_count,
                issued,
                Seq::empty(),
                Result::Err(
                    InvokeError::HandlerPanicked(e.handler.panic_payload(e.receiver, parameter)),
                ),
            )
        } else {
            let updated = entries.update(
                i,
                Entry {
                    key: e.key,
                    receiver: e.handler.new_receiver(e.receiver, parameter),
                    handler: e.handler,
                },
            );
            let d = spec_drain::<R, H, P>(
                updated,
                key_count,
                issued,
                e.handler.scheduled(e.receiver, parameter),
            );
            (
                d.0,
                d.1,
                d.2,
                d.3,
                match d.4 {
                    Option::None => Result::Ok(()),
                    Option::Some(err) => Result::Err(err),
                },
            )
        }
    }
}

/// Law: once the entry under `key` has been removed — by
/// [`CallbackRegistry::deregister`], a deferred [`DeferredOp::Deregister`] or
/// an administrative clear — dispatching any parameter to `key` has no
/// observable effect whatsoever and reports success, for every registry state
/// without that key: the table, the key counter and the issued-key record are
/// left exactly as they were, no registration is created, and no error (and
/// in particular no panic) reaches the caller.
pub proof fn lemma_invoke_after_removal_is_inert<R, T, P, H: Handler<R, T, P>>(
    entries: Seq<Entry<R, H>>,
    key_count: int,
    issued: Seq<u64>,
    key: Key,
    parameter: T,
)
    requires
        !live_in(entries, key),
    ensures
        spec_invoke::<R, T, P, H>(entries, key_count, issued, key, parameter) == (
            entries,
            key_count,
            issued,
            Seq::<CallbackRegistration>::empty(),
            Result::<(), InvokeError<P>>::Ok(()),
        ),
{
}

impl<R, H> CallbackRegistry<R, H> {
    /// Runs a sequence of deferred ops in order, stopping at the first
    /// failure and discarding whatever follows it.
    #[verifier::loop_isolation(false)]
    fn drain<P>(&mut self, ops: Vec<DeferredOp<R, H>>) -> (r: (
        Vec<CallbackRegistration>,
        Result<(), InvokeError<P>>,
    ))
        requires
            old(self).wf(),
        ensures
            final (self).wf(),
            ({
                let d = spec_drain::<R, H, P>(
                    old(self).entries@,
                    old(self).key_count as int,
                    old(self).issued@,
                    ops@,
                );
                final (self).entries@ == d.0 && final (self).key_count as int == d.1 && final (self).issued@ == d.2 && r.0@ == d.3 && (match d.4 {
                    Option::None => r.1 == Result::<(), InvokeError<P>>::Ok(()),
                    Option::Some(err) => r.1 == Result::<(), InvokeError<P>>::Err(err),
                })
            }),
    {
        let ghost goal = spec_drain::<R, H, P>(
            self.entries@,
            self.key_count as int,
            self.issued@,
            ops@,
        );
        let mut regs: Vec<CallbackRegistration> = Vec::new();
        let mut ops = ops;
        while ops.len() > 0
            invariant
                self.wf(),
                ({
                    let cur = spec_drain::<R, H, P>(
                        self.entries@,
                        self.key_count as int,
                        self.issued@,
                        ops@,
                    );
                    goal.0 == cur.0 && goal.1 == cur.1 && goal.2 == cur.2 && goal.4 == cur.4
                        && goal.3 == regs@ + cur.3
                }),
            decreases ops@.len(),
        {
            let ghost pre_ops = ops@;
            let ghost pre_cur = spec_drain::<R, H, P>(
                self.entries@,
                self.key_count as int,
                self.issued@,
                ops@,
            );
            let op = ops.remove(0);
            proof {
                assert(ops@ =~= pre_ops.drop_first());
            }
            match op {
                DeferredOp::Deregister(key) => {
                    let found = self.find_index(key);
                    match found {
                        Option::Some(_) => {
                            self.remove_key(key);
                            proof {
                                assert(goal.3 =~= regs@ + spec_drain::<R, H, P>(
                                    self.entries@,
                                    self.key_count as int,
                                    self.issued@,
                                    ops@,
                                ).3);
                            }
                        },
                        Option::None => {
                            proof {
                                assert(pre_cur.4 == Option::Some(
                                    InvokeError::<P>::StaleDeregistration(key),
                                ));
                                assert(goal.3 =~= regs@);
                            }
                            return (regs, Result::Err(InvokeError::StaleDeregistration(key)));
                        },
                    }
                },
                DeferredOp::Register(receiver, handler, thread_safe) => {
                    if self.key_count == u64::MAX {
                        proof {
                            assert(pre_cur.4 == Option::Some(InvokeError::<P>::KeysExhausted));
                            assert(goal.3 =~= regs@);
                        }
                        return (regs, Result::Err(InvokeError::KeysExhausted));
                    }
                    let registration = self.register(receiver, handler, thread_safe);
                    regs.push(registration);
                    proof {
                        let cur = spec_drain::<R, H, P>(
                            self.entries@,
                            self.key_count as int,
                            self.issued@,
                            ops@,
                        );
                        assert(pre_cur.3 == seq![
                            CallbackRegistration {
                                key: Key(self.key_count),
                                thread_safe,
                            },
                        ] + cur.3);
                        assert(goal.3 =~= regs@ + cur.3);
                    }
                },
            }
        }
        proof {
            assert(goal.3 =~= regs@);
        }
        (regs, Result::Ok(()))
    }

    /// Looks up the entry registered under `key` and invokes its handler with
    /// the stored receiver state and `parameter` — exactly once, with the
    /// parameter passed through unchanged.
    ///
    /// If no entry is live under `key` — for example because the owning
    /// [`CallbackRegistration`] was already deregistered — this silently does
    /// nothing and reports success, because that is an expected race during
    /// teardown, not an error; in particular it never panics.
    ///
    /// A running handler cannot touch this registry (the dispatch holds it),
    /// so any registrations or deregistrations it wants are returned from
    /// [`Handler::call`] as [`DeferredOp`]s; once the handler has returned
    /// normally they run here, in the order the handler scheduled them, each
    /// exactly once, and the handles of newly created registrations are
    /// handed back in `r.0`.  If the handler panics instead, every op it
    /// scheduled is discarded unexecuted, the table is left as it was, and
    /// the panic payload is re-raised to the caller as
    /// [`InvokeError::HandlerPanicked`].
    pub fn invoke<T, P>(&mut self, key: Key, parameter: T) -> (r: (
        Vec<CallbackRegistration>,
        Result<(), InvokeError<P>>,
    )) where H: Handler<R, T, P>
        requires
            old(self).wf(),
        ensures
            final (self).wf(),
            ({
                let d = spec_invoke::<R, T, P, H>(
                    old(self).entries@,
                    old(self).key_count as int,
                    old(self).issued@,
                    key,
                    parameter,
                );
                final (self).entries@ == d.0 && final (self).key_count as int == d.1 && final (self).issued@ == d.2 && r.0@ == d.3 && r.1 == d.4
            }),
            !old(self).is_live(key) ==> final (self).entries@ == old(self).entries@ && final (self).key_count == old(self).key_count && final (self).issued@ == old(self).issued@
                && r.0@.len() == 0 && r.1 is Ok,
    {
        let found = self.find_index(key);
        match found {
            Option::None => (Vec::new(), Result::Ok(())),
            Option::Some(i) => {
                let ghost pre = self.entries@;
                let entry = self.entries.remove(i);
                let Entry { key: entry_key, receiver, handler } = entry;
                let outcome = handler.call(&receiver, parameter);
                match outcome {
                    HandlerOutcome::Returned(new_receiver, ops) => {
                        self.entries.insert(
                            i,
                            Entry { key: entry_key, receiver: new_receiver, handler },
                        );
                        proof {
                            assert(self.entries@ =~= pre.update(
                                i as int,
                                Entry {
                                    key: pre[i as int].key,
                                    receiver: new_receiver,
                                    handler: pre[i as int].handler,
                                },
                            ));
                            assert forall|a: int, b: int|
                                0 <= a < b < self.entries@.len() implies self.entries@[a].key.0
                                < self.entries@[b].key.0 by {
                                assert(self.entries@[a].key == pre[a].key);
                                assert(self.entries@[b].key == pre[b].key);
                            }
                            assert forall|a: int| 0 <= a < self.entries@.len() implies 1
                                <= #[trigger] self.entries@[a].key.0 <= self.key_count by {
                                assert(self.entries@[a].key == pre[a].key);
                            }
                        }
                        self.drain(ops)
                    },
                    HandlerOutcome::Panicked(payload, _ops) => {
                        self.entries.insert(i, Entry { key: entry_key, receiver, handler });
                        proof {
                            assert(self.entries@ =~= pre);
                        }
                        (Vec::new(), Result::Err(InvokeError::HandlerPanicked(payload)))
                    },
                }
            },
        }
    }

    /// Causes a deferred operation to run when this registry is not locked by
    /// a dispatch.
    ///
    /// The registry is handed in by exclusive reference, so no dispatch can
    /// be underway on it here and the operation runs immediately.  Deferral
    /// while a dispatch *is* running is what a handler gets instead by
    /// returning [`DeferredOp`]s from [`Handler::call`]: those run as soon as
    /// [`CallbackRegistry::invoke`] has released the table, in scheduling
    /// order.
    pub fn when_unlocked_locally<P>(&mut self, continuation: DeferredOp<R, H>) -> (r: (
        Vec<CallbackRegistration>,
        Result<(), InvokeError<P>>,
    ))
        requires
            old(self).wf(),
        ensures
            final (self).wf(),
            ({
                let d = spec_drain::<R, H, P>(
                    old(self).entries@,
                    old(self).key_count as int,
                    old(self).issued@,
                    seq![continuation],
                );
                final (self).entries@ == d.0 && final (self).key_count as int == d.1 && final (self).issued@ == d.2 && r.0@ == d.3 && (match d.4 {
                    Option::None => r.1 == Result::<(), InvokeError<P>>::Ok(()),
                    Option::Some(err) => r.1 == Result::<(), InvokeError<P>>::Err(err),
                })
            }),
    {
        let mut ops = Vec::new();
        ops.push(continuation);
        self.drain(ops)
    }
}

impl<R, H> CallbackRegistry<R, H> {
    /// Registers a handler that will be dispatched with a DOM reference
    /// notification as its parameter, as produced by
    /// [`CallbackRegistry::invoke_with_ref`].
    ///
    /// Registration itself does not depend on the parameter type, so this
    /// guarantees exactly what [`CallbackRegistry::register`] does.
    pub fn register_by_ref(&mut self, receiver: R, handler: H, receiver_thread_safe: bool) -> (registration:
        CallbackRegistration)
        requires
            old(self).wf(),
            old(self).key_count < u64::MAX,
        ensures
            final (self).wf(),
            final (self).key_count == old(self).key_count + 1,
            registration.key.0 == final (self).key_count,
            registration.thread_safe == receiver_thread_safe,
            final (self).entries@ == old(self).entries@.push(
                Entry { key: registration.key, receiver, handler },
            ),
            final (self).issued@ == old(self).issued@.push(registration.key.0),
            final (self).is_live(registration.key),
    {
        self.register(receiver, handler, receiver_thread_safe)
    }

    /// Looks up the entry registered under `key` and invokes its handler with
    /// a DOM reference notification, exactly as [`CallbackRegistry::invoke`]
    /// would.
    pub fn invoke_with_ref<U, P>(&mut self, key: Key, parameter: DomRef<U>) -> (r: (
        Vec<CallbackRegistration>,
        Result<(), InvokeError<P>>,
    )) where H: Handler<R, DomRef<U>, P>
        requires
            old(self).wf(),
        ensures
            final (self).wf(),
            ({
                let d = spec_invoke::<R, DomRef<U>, P, H>(
                    old(self).entries@,
                    old(self).key_count as int,
                    old(self).issued@,
                    key,
                    parameter,
                );
                final (self).entries@ == d.0 && final (self).key_count as int == d.1 && final (self).issued@ == d.2 && r.0@ == d.3 && r.1 == d.4
            }),
            !old(self).is_live(key) ==> final (self).entries@ == old(self).entries@ && final (self).key_count == old(self).key_count && final (self).issued@ == old(self).issued@
                && r.0@.len() == 0 && r.1 is Ok,
    {
        self.invoke(key, parameter)
    }
}

impl CallbackRegistration {
    /// Creates a new [`CallbackRegistration`] in `registry` with the given
    /// `receiver` and `handler`, like [`CallbackRegistry::register`].
    ///
    /// `receiver_thread_safe` declares whether concurrent access to the
    /// receiver would be sound; it gates [`CallbackRegistration::to_ref`] on
    /// the returned handle.
    pub fn new<R, H>(
        registry: &mut CallbackRegistry<R, H>,
        receiver: R,
        handler: H,
        receiver_thread_safe: bool,
    ) -> (registration: Self)
        requires
            old(registry).wf(),
            old(registry).key_count < u64::MAX,
        ensures
            final (registry).wf(),
            final (registry).key_count == old(registry).key_count + 1,
            registration.key.0 == final (registry).key_count,
            registration.thread_safe == receiver_thread_safe,
            final (registry).entries@ == old(registry).entries@.push(
                Entry { key: registration.key, receiver, handler },
            ),
            final (registry).issued@ == old(registry).issued@.push(registration.key.0),
            final (registry).is_live(registration.key),
    {
        registry.register(receiver, handler, receiver_thread_safe)
    }
}

impl CallbackRef {
    /// Invokes the stored handler with the stored receiver state and
    /// `parameter`, provided that the original [`CallbackRegistration`]
    /// hasn't been deregistered yet: on a live registration the handler runs
    /// exactly once, with `parameter` passed through unchanged; on a dead one
    /// nothing observable happens and success is reported.
    ///
    /// Consumes this reference, which is [`Copy`], so consuming one copy does
    /// not invalidate its siblings.  See [`CallbackRegistry::invoke`] for the
    /// full contract.
    pub fn call<R, H, T, P>(self, registry: &mut CallbackRegistry<R, H>, parameter: T) -> (r: (
        Vec<CallbackRegistration>,
        Result<(), InvokeError<P>>,
    )) where H: Handler<R, T, P>
        requires
            old(registry).wf(),
        ensures
            final (registry).wf(),
            ({
                let d = spec_invoke::<R, T, P, H>(
                    old(registry).entries@,
                    old(registry).key_count as int,
                    old(registry).issued@,
                    self.key,
                    parameter,
                );
                final (registry).entries@ == d.0 && final (registry).key_count as int == d.1
                    && final (registry).issued@ == d.2 && r.0@ == d.3 && r.1 == d.4
            }),
            !old(registry).is_live(self.key) ==> final (registry).entries@ == old(registry).entries@
                && final (registry).key_count == old(registry).key_count && final (registry).issued@
                == old(registry).issued@ && r.0@.len() == 0 && r.1 is Ok,
    {
        registry.invoke(self.key, parameter)
    }
}

/// Provides a fallback alternative to [`CallbackRegistration::to_ref`] for
/// use in macro frameworks.
///
/// There is no requirement on the receiver's thread-safety capability, but in
/// turn the resulting [`CallbackRef`] is thread-bound.
///
/// > **Warning:** Using this trait can unhelpfully mask the source of
/// > thread-bound references in a larger application.
pub trait ToRefThreadBoundFallback: Sized {
    /// The reference [`ToRefThreadBoundFallback::to_ref`] returns.
    spec fn fallback_ref_spec(&self) -> CallbackRef;

    /// See [`CallbackRegistration::to_ref`], except that this method is
    /// unconstrained and that the resulting [`CallbackRef`] is thread-bound.
    fn to_ref(&self) -> (r: CallbackRef)
        ensures
            r == self.fallback_ref_spec(),
    ;
}

impl ToRefThreadBoundFallback for CallbackRegistration {
    open spec fn fallback_ref_spec(&self) -> CallbackRef {
        self.ref_spec()
    }

    fn to_ref(&self) -> (r: CallbackRef) {
        self.to_ref_thread_bound()
    }
}

impl<R, H> Default for CallbackRegistry<R, H> {
    /// Creates an empty registry, like [`CallbackRegistry::new`].
    fn default() -> (r: Self)
        ensures
            r.wf(),
            r.key_count == 0,
            r.entries@.len() == 0,
            r.issued@ == Seq::<u64>::empty(),
    {
        Self::new()
    }
}

} // verus!
