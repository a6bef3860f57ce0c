use lignin::callback_registry::{CallbackRegistration, CallbackRegistry, InvokeError, Key};
use lignin::handlers::LatestEvent;
use lignin::{
    Attribute, DomRef, ElementCreationOptions, EventBinding, EventBindingOptions,
};

#[test]
fn event_binding_options_start_passive() {
    let options = EventBindingOptions::new();
    assert!(!options.capture());
    assert!(!options.once());
    assert!(options.passive());
    assert_eq!(options, EventBindingOptions::default());
    assert_eq!(options.0, 0b_0100);
}

#[test]
fn event_binding_options_flags_are_independent() {
    let options = EventBindingOptions::new().with_capture(true);
    assert!(options.capture());
    assert!(!options.once());
    assert!(options.passive());
    assert_eq!(options.0, 0b_0101);

    let options = options.with_once(true).with_passive(false);
    assert!(options.capture());
    assert!(options.once());
    assert!(!options.passive());
    assert_eq!(options.0, 0b_0011);

    let options = options.with_capture(false);
    assert!(!options.capture());
    assert!(options.once());
    assert_eq!(options.0, 0b_0010);
}

#[test]
fn event_binding_options_setters_match_builders() {
    let mut set = EventBindingOptions::new();
    set.set_capture(true);
    set.set_once(true);
    set.set_passive(false);
    let built = EventBindingOptions::new()
        .with_capture(true)
        .with_once(true)
        .with_passive(false);
    assert_eq!(set, built);
}

#[test]
fn element_creation_options_carry_is() {
    let options = ElementCreationOptions::new();
    assert!(options.matches_undefined());
    assert_eq!(options.is(), None);
    assert_eq!(options, ElementCreationOptions::default());

    let custom = options.with_is(Some("custom-input"));
    assert!(!custom.matches_undefined());
    assert_eq!(custom.is(), Some("custom-input"));

    let mut mutated = custom;
    mutated.set_is(None);
    assert!(mutated.matches_undefined());
    assert_eq!(mutated, ElementCreationOptions::new());
}

#[test]
fn attributes_compare_by_name_and_value() {
    let a = Attribute { name: "class", value: "menu" };
    let b = Attribute { name: "class", value: "menu" };
    let c = Attribute { name: "class", value: "open" };
    assert_eq!(a, b);
    assert_ne!(a, c);
}

#[test]
fn event_bindings_embed_references() {
    let mut registry: CallbackRegistry<Option<()>, LatestEvent> = CallbackRegistry::new();
    let registration = registry.register(None, LatestEvent, true);
    let binding = EventBinding {
        name: "click",
        callback: registration.to_ref(),
        options: EventBindingOptions::new(),
    };
    let other = EventBinding {
        name: "click",
        callback: registration.to_ref(),
        options: EventBindingOptions::new(),
    };
    assert_eq!(binding, other);
    assert_eq!(binding.callback.key, registration.key);
}

#[test]
fn dom_ref_dispatch_reaches_handler() {
    let mut registry: CallbackRegistry<Option<DomRef<u32>>, LatestEvent> = CallbackRegistry::new();
    let registration = registry.register_by_ref(None, LatestEvent, false);
    let (regs, result): (Vec<CallbackRegistration>, Result<(), InvokeError<u64>>) =
        registry.invoke_with_ref(registration.key, DomRef::Added(5));
    assert!(regs.is_empty());
    assert_eq!(result, Ok(()));
    assert_eq!(registry.get_receiver(registration.key), Some(&Some(DomRef::Added(5))));

    let (_, result): (Vec<CallbackRegistration>, Result<(), InvokeError<u64>>) =
        registry.invoke_with_ref(registration.key, DomRef::Removing(5));
    assert_eq!(result, Ok(()));
    assert_eq!(
        registry.get_receiver(registration.key),
        Some(&Some(DomRef::Removing(5)))
    );
    assert_ne!(DomRef::Added(5), DomRef::Removing(5));
    // an inert reference after force-clearing
    registry.yet_more_unsafe_force_clear_callback_registry();
    let (_, result): (Vec<CallbackRegistration>, Result<(), InvokeError<u64>>) =
        registry.invoke_with_ref(Key(1), DomRef::Added(6));
    assert_eq!(result, Ok(()));
    assert_eq!(registry.get_receiver(Key(1)), None);
}
