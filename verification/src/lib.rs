//! A lightweight virtual-DOM data-type library built around a verified
//! callback registry.
//!
//! Virtual-DOM nodes are deliberately small, copyable value types, so they
//! cannot embed closures or receiver pointers directly.  Instead a component
//! registers its event handler with a [`callback_registry::CallbackRegistry`]
//! and embeds the resulting copyable [`CallbackRef`] in the tree; a renderer
//! later resolves that reference through the registry to dispatch the event.
//!
//! This crate also provides the small value types such references are
//! embedded in: [`Attribute`], [`EventBinding`], [`EventBindingOptions`] and
//! [`ElementCreationOptions`].

use vstd::prelude::*;

pub mod callback_registry;
pub mod handlers;

pub use callback_registry::{CallbackRef, CallbackRegistration, CallbackRegistry, Key};

verus! {

/// Bit mask for the `capture` flag of [`EventBindingOptions`].
pub const CAPTURE: u8 = 0b_0001;

/// Bit mask for the `once` flag of [`EventBindingOptions`].
pub const ONCE: u8 = 0b_0010;

/// Bit mask for the `passive` flag of [`EventBindingOptions`].
pub const PASSIVE: u8 = 0b_0100;

/// Maps to ***options*** parameter values of ***EventTarget.addEventListener()***,
/// packed into one byte.
///
/// All constructors initialise instances with [`EventBindingOptions::passive`]
/// set to `true`.
#[derive(Debug, Clone, Copy, PartialEq, Eq, PartialOrd, Ord, Hash, Structural)]
pub struct EventBindingOptions(pub u8);

impl Default for EventBindingOptions {
    /// Creates a new [`EventBindingOptions`] instance with `passive` already set to `true`.
    fn default() -> (r: Self)
        ensures
            r == Self::new_spec(),
    {
        Self::new()
    }
}

impl EventBindingOptions {
    /// The value every constructor returns: all flags clear except `passive`.
    pub open spec fn new_spec() -> Self {
        EventBindingOptions(PASSIVE)
    }

    /// Whether the `capture` flag is set, as seen by contracts.
    pub open spec fn capture_spec(&self) -> bool {
        self.0 & CAPTURE == CAPTURE
    }

    /// Whether the `once` flag is set, as seen by contracts.
    pub open spec fn once_spec(&self) -> bool {
        self.0 & ONCE == ONCE
    }

    /// Whether the `passive` flag is set, as seen by contracts.
    pub open spec fn passive_spec(&self) -> bool {
        self.0 & PASSIVE == PASSIVE
    }

    /// Creates a new [`EventBindingOptions`] instance with `passive` already set to `true`.
    pub fn new() -> (r: Self)
        ensures
            r == Self::new_spec(),
            !r.capture_spec(),
            !r.once_spec(),
            r.passive_spec(),
    {
        proof {
            assert(PASSIVE & CAPTURE != CAPTURE && PASSIVE & ONCE != ONCE && PASSIVE & PASSIVE
                == PASSIVE) by (bit_vector);
        }
        Self(PASSIVE)
    }

    /// Indicates whether an event should be dispatched while bubbling down
    /// rather than up along the DOM.
    pub fn capture(&self) -> (r: bool)
        ensures
            r == self.capture_spec(),
    {
        self.0 & CAPTURE == CAPTURE
    }

    /// Sets whether an event should be dispatched while bubbling down rather
    /// than up along the DOM.
    pub fn set_capture(&mut self, capture: bool)
        ensures
            final (self).0 == (if capture {
                old(self).0 | CAPTURE
            } else {
                old(self).0 & !CAPTURE
            }),
            final (self).capture_spec() == capture,
            final (self).once_spec() == old(self).once_spec(),
            final (self).passive_spec() == old(self).passive_spec(),
    {
        *self = self.with_capture(capture);
    }

    /// Sets whether an event should be dispatched while bubbling down rather
    /// than up along the DOM.
    pub fn with_capture(self, capture: bool) -> (r: Self)
        ensures
            r.0 == (if capture {
                self.0 | CAPTURE
            } else {
                self.0 & !CAPTURE
            }),
            r.capture_spec() == capture,
            r.once_spec() == self.once_spec(),
            r.passive_spec() == self.passive_spec(),
    {
        let b = self.0;
        if capture {
            proof {
                assert((b | CAPTURE) & CAPTURE == CAPTURE && (b | CAPTURE) & ONCE == b & ONCE && (b
                    | CAPTURE) & PASSIVE == b & PASSIVE) by (bit_vector);
            }
            Self(b | CAPTURE)
        } else {
            proof {
                assert((b & !CAPTURE) & CAPTURE != CAPTURE && (b & !CAPTURE) & ONCE == b & ONCE && (
                b & !CAPTURE) & PASSIVE == b & PASSIVE) by (bit_vector);
            }
            Self(b & !CAPTURE)
        }
    }

    /// Indicates whether an associated [`CallbackRef`] should be invoked at
    /// most once for one [`EventBinding`].
    pub fn once(&self) -> (r: bool)
        ensures
            r == self.once_spec(),
    {
        self.0 & ONCE == ONCE
    }

    /// Sets whether an associated [`CallbackRef`] should be invoked at most
    /// once for one [`EventBinding`].
    pub fn set_once(&mut self, once: bool)
        ensures
            final (self).0 == (if once {
                old(self).0 | ONCE
            } else {
                old(self).0 & !ONCE
            }),
            final (self).once_spec() == once,
            final (self).capture_spec() == old(self).capture_spec(),
            final (self).passive_spec() == old(self).passive_spec(),
    {
        *self = self.with_once(once);
    }

    /// Sets whether an associated [`CallbackRef`] should be invoked at most
    /// once for one [`EventBinding`].
    pub fn with_once(self, once: bool) -> (r: Self)
        ensures
            r.0 == (if once {
                self.0 | ONCE
            } else {
                self.0 & !ONCE
            }),
            r.once_spec() == once,
            r.capture_spec() == self.capture_spec(),
            r.passive_spec() == self.passive_spec(),
    {
        let b = self.0;
        if once {
            proof {
                assert((b | ONCE) & ONCE == ONCE && (b | ONCE) & CAPTURE == b & CAPTURE && (b
                    | ONCE) & PASSIVE == b & PASSIVE) by (bit_vector);
            }
            Self(b | ONCE)
        } else {
            proof {
                assert((b & !ONCE) & ONCE != ONCE && (b & !ONCE) & CAPTURE == b & CAPTURE && (b
                    & !ONCE) & PASSIVE == b & PASSIVE) by (bit_vector);
            }
            Self(b & !ONCE)
        }
    }

    /// `(default)` Indicates whether a callback is disallowed from cancelling
    /// the default reaction of the event it is handling.
    pub fn passive(&self) -> (r: bool)
        ensures
            r == self.passive_spec(),
    {
        self.0 & PASSIVE == PASSIVE
    }

    /// `(default)` Sets whether a callback is disallowed from cancelling the
    /// default reaction of the event it is handling.
    pub fn set_passive(&mut self, passive: bool)
        ensures
            final (self).0 == (if passive {
                old(self).0 | PASSIVE
            } else {
                old(self).0 & !PASSIVE
            }),
            final (self).passive_spec() == passive,
            final (self).capture_spec() == old(self).capture_spec(),
            final (self).once_spec() == old(self).once_spec(),
    {
        *self = self.with_passive(passive);
    }

    /// `(default)` Sets whether a callback is disallowed from cancelling the
    /// default reaction of the event it is handling.
    pub fn with_passive(self, passive: bool) -> (r: Self)
        ensures
            r.0 == (if passive {
                self.0 | PASSIVE
            } else {
                self.0 & !PASSIVE
            }),
            r.passive_spec() == passive,
            r.capture_spec() == self.capture_spec(),
            r.once_spec() == self.once_spec(),
    {
        let b = self.0;
        if passive {
            proof {
                assert((b | PASSIVE) & PASSIVE == PASSIVE && (b | PASSIVE) & CAPTURE == b & CAPTURE
                    && (b | PASSIVE) & ONCE == b & ONCE) by (bit_vector);
            }
            Self(b | PASSIVE)
        } else {
            proof {
                assert((b & !PASSIVE) & PASSIVE != PASSIVE && (b & !PASSIVE) & CAPTURE == b
                    & CAPTURE && (b & !PASSIVE) & ONCE == b & ONCE) by (bit_vector);
            }
            Self(b & !PASSIVE)
        }
    }
}

/// Maps to ***options*** parameter values of ***Document.createElement()***
/// (including ***undefined***) *or* the global ***is*** attribute.
///
/// The one option, `is`, names a previously defined ***customized built-in
/// element*** to instantiate over a built-in HTML element.
#[derive(Debug, Clone, Copy, PartialEq, Eq, PartialOrd, Ord, Hash)]
pub struct ElementCreationOptions<'a> {
    /// The ***tag name*** of the customized built-in element to use, if any.
    pub is: Option<&'a str>,
}

impl<'a> Default for ElementCreationOptions<'a> {
    fn default() -> (r: Self)
        ensures
            r.is is None,
    {
        Self::new()
    }
}

impl<'a> ElementCreationOptions<'a> {
    /// Creates a new [`ElementCreationOptions`] with all fields set to [`None`].
    pub fn new() -> (r: Self)
        ensures
            r.is is None,
    {
        Self { is: None }
    }

    /// Indicates whether this [`ElementCreationOptions`] instance can be
    /// omitted entirely in a ***Document.createElement()*** call.
    pub fn matches_undefined(&self) -> (r: bool)
        ensures
            r == (self.is is None),
    {
        match self.is {
            Option::None => true,
            Option::Some(_) => false,
        }
    }

    /// Retrieves the ***tag name*** of the customized built-in element to use,
    /// if any.
    pub fn is(&self) -> (r: Option<&'a str>)
        ensures
            r == self.is,
    {
        self.is
    }

    /// Sets the ***tag name*** of the customized built-in element to use.
    pub fn set_is(&mut self, is: Option<&'a str>)
        ensures
            final (self).is == is,
    {
        self.is = is;
    }

    /// Sets the ***tag name*** of the customized built-in element to use.
    pub fn with_is(self, is: Option<&'a str>) -> (r: Self)
        ensures
            r.is == is,
    {
        Self { is }
    }
}

/// Represents a single HTML ***Attr*** with `name` and `value`.
///
/// The value is stored unescaped; renderers that serialise a tree to text must
/// validate or escape both fields themselves.
#[derive(Debug, Clone, Copy, PartialEq, Eq, PartialOrd, Ord, Hash)]
pub struct Attribute<'a> {
    /// The attribute ***name***.
    pub name: &'a str,
    /// The unescaped attribute ***value***.
    pub value: &'a str,
}

/// Represents a single DOM event binding with `name` and `callback`.
///
/// Renderers usually manage these through ***EventTarget.addEventListener***
/// and ***….removeEventListener***, or ignore them entirely.
#[derive(Debug, Clone, Copy, PartialEq, Eq, Hash)]
pub struct EventBinding<'a> {
    /// The event name.
    pub name: &'a str,
    /// A callback reference created via [`CallbackRegistration`].
    pub callback: CallbackRef,
    /// Controls the ***options*** parameter of ***EventTarget.addEventListener()***.
    ///
    /// Note that [`EventBindingOptions`] is created with the
    /// [`EventBindingOptions::passive`] flag already enabled.
    pub options: EventBindingOptions,
}

/// Used as DOM reference callback parameter.
///
/// A renderer passes [`DomRef::Added`] after the referenced part of the DOM
/// has been built, and [`DomRef::Removing`] before it is torn down again; a
/// renderer that passed `Added` must pass `Removing` before destroying or
/// reusing the relevant part of the DOM.
#[derive(Debug, Clone, Copy, PartialEq, Eq, PartialOrd, Ord, Hash)]
pub enum DomRef<T> {
    /// Passed **after** all child elements have been processed and, if
    /// applicable, the element has been added to the document tree.
    Added(T),
    /// Passed **before** any child elements are processed and, if applicable,
    /// the element is removed from the document tree.
    Removing(T),
}

} // verus!
